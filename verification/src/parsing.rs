//! Parsing of magnet URI strings.
//!
//! The string is modeled as a character sequence. After the scheme prefix,
//! the remainder splits on `&` into fragments; each `key=value` fragment is
//! dispatched by key onto the record, later occurrences of a singular key
//! overwriting earlier ones, while `tr` accumulates in order.

use vstd::prelude::*;
use vstd::string::StrSliceExecFns;
use crate::model::{empty_record, Magnet, MagnetError, MagnetView};
use crate::text::{find_char, find_char_in, lemma_find_char, str_eq};

verus! {

/// The characters of the scheme prefix `magnet:?`.
pub open spec fn magnet_prefix() -> Seq<char> {
    seq!['m', 'a', 'g', 'n', 'e', 't', ':', '?']
}

/// The characters of the infix `urn:` that opens an exact-topic value.
pub open spec fn urn_prefix() -> Seq<char> {
    seq!['u', 'r', 'n', ':']
}

pub open spec fn key_dn() -> Seq<char> {
    seq!['d', 'n']
}

pub open spec fn key_xt() -> Seq<char> {
    seq!['x', 't']
}

pub open spec fn key_xl() -> Seq<char> {
    seq!['x', 'l']
}

pub open spec fn key_tr() -> Seq<char> {
    seq!['t', 'r']
}

pub open spec fn key_kt() -> Seq<char> {
    seq!['k', 't']
}

pub open spec fn key_ws() -> Seq<char> {
    seq!['w', 's']
}

pub open spec fn key_xs() -> Seq<char> {
    seq!['x', 's']
}

pub open spec fn key_as() -> Seq<char> {
    seq!['a', 's']
}

pub open spec fn key_mt() -> Seq<char> {
    seq!['m', 't']
}

/// Whether `s` begins with the scheme prefix `magnet:?`.
pub open spec fn is_magnet_prefixed(s: Seq<char>) -> bool {
    s.len() >= 8 && s.take(8) == magnet_prefix()
}

/// `s` with the scheme prefix removed, when it is there.
pub open spec fn strip_magnet_prefix(s: Seq<char>) -> Seq<char> {
    if is_magnet_prefixed(s) {
        s.skip(8)
    } else {
        s
    }
}

/// Splits `s` into the fragments between `&` separators. Every string has at
/// least one fragment; separators at the ends contribute empty fragments.
pub open spec fn split_amp(s: Seq<char>) -> Seq<Seq<char>>
    decreases s.len(),
    via split_amp_decreases
{
    match find_char(s, '&') {
        None => seq![s],
        Some(i) => seq![s.take(i)] + split_amp(s.skip(i + 1)),
    }
}

#[via_fn]
proof fn split_amp_decreases(s: Seq<char>) {
    lemma_find_char(s, '&');
}

/// The key and value of a fragment, split at its first `=`; `None` for a
/// fragment with no `=`.
pub open spec fn frag_key_value(frag: Seq<char>) -> Option<(Seq<char>, Seq<char>)> {
    match find_char(frag, '=') {
        None => None,
        Some(i) => Some((frag.take(i), frag.skip(i + 1))),
    }
}

/// Whether `c` is a decimal digit.
pub open spec fn is_digit(c: char) -> bool {
    '0' <= c && c <= '9'
}

/// The numeric value of a decimal digit character.
pub open spec fn digit_val(c: char) -> int {
    c as u32 - 48
}

/// Whether every character of `s` is a decimal digit.
pub open spec fn all_digits(s: Seq<char>) -> bool {
    forall|i: int| 0 <= i < s.len() ==> is_digit(s[i])
}

/// The number denoted by a digit string, most significant digit first.
pub open spec fn digits_value(s: Seq<char>) -> int
    decreases s.len(),
{
    if s.len() == 0 {
        0
    } else {
        digits_value(s.drop_last()) * 10 + digit_val(s.last())
    }
}

/// The `u64` a string denotes: an optional leading `+`, then one or more
/// decimal digits, the value fitting in a `u64`; `None` otherwise.
pub open spec fn spec_parse_u64(s: Seq<char>) -> Option<u64> {
    let digits = if s.len() > 0 && s[0] == '+' {
        s.skip(1)
    } else {
        s
    };
    if digits.len() > 0 && all_digits(digits) && digits_value(digits) <= u64::MAX {
        Some(digits_value(digits) as u64)
    } else {
        None
    }
}

/// The effect of an exact-topic value on the record: when the value reads
/// `urn:<hash_type>:<hash>`, both parts are stored; otherwise nothing is.
pub open spec fn apply_xt(m: MagnetView, value: Seq<char>) -> MagnetView {
    if value.len() >= 4 && value.take(4) == urn_prefix() {
        let rest = value.skip(4);
        match find_char(rest, ':') {
            Some(i) => MagnetView {
                hash_type: Some(rest.take(i)),
                hash: Some(rest.skip(i + 1)),
                ..m
            },
            None => m,
        }
    } else {
        m
    }
}

/// The effect of one fragment on the record: dispatch by key, unknown keys
/// and fragments without `=` changing nothing.
pub open spec fn apply_param(m: MagnetView, frag: Seq<char>) -> MagnetView {
    match frag_key_value(frag) {
        None => m,
        Some((key, value)) => {
            if key == key_dn() {
                MagnetView { display_name: Some(value), ..m }
            } else if key == key_xt() {
                apply_xt(m, value)
            } else if key == key_xl() {
                match spec_parse_u64(value) {
                    Some(n) => MagnetView { length: Some(n), ..m },
                    None => m,
                }
            } else if key == key_tr() {
                MagnetView { trackers: m.trackers.push(value), ..m }
            } else if key == key_kt() {
                MagnetView { search_keywords: Some(value), ..m }
            } else if key == key_ws() {
                MagnetView { web_seed: Some(value), ..m }
            } else if key == key_xs() {
                MagnetView { source: Some(value), ..m }
            } else if key == key_as() {
                MagnetView { acceptable_source: Some(value), ..m }
            } else if key == key_mt() {
                MagnetView { manifest: Some(value), ..m }
            } else {
                m
            }
        },
    }
}

/// The record after applying each fragment in order.
pub open spec fn apply_params(m: MagnetView, frags: Seq<Seq<char>>) -> MagnetView
    decreases frags.len(),
{
    if frags.len() == 0 {
        m
    } else {
        apply_params(apply_param(m, frags[0]), frags.skip(1))
    }
}

/// The record a magnet string denotes: the prefix stripped, the remainder
/// split on `&`, and the fragments applied to the empty record in order.
pub open spec fn spec_parse(s: Seq<char>) -> MagnetView {
    apply_params(empty_record(), split_amp(strip_magnet_prefix(s)))
}

/// A digit string denotes a nonnegative number.
pub proof fn lemma_digits_value_nonneg(s: Seq<char>)
    requires
        all_digits(s),
    ensures
        digits_value(s) >= 0,
    decreases s.len(),
{
    if s.len() > 0 {
        assert(forall|i: int| 0 <= i < s.drop_last().len() ==> s.drop_last()[i] == s[i]);
        lemma_digits_value_nonneg(s.drop_last());
    }
}

/// A prefix of a digit string denotes no more than the whole.
pub proof fn lemma_digits_value_prefix_le(s: Seq<char>, k: int)
    requires
        all_digits(s),
        0 <= k <= s.len(),
    ensures
        digits_value(s.take(k)) <= digits_value(s),
    decreases s.len(),
{
    if k == s.len() {
        assert(s.take(k) =~= s);
    } else {
        let head = s.drop_last();
        assert(forall|i: int| 0 <= i < head.len() ==> head[i] == s[i]);
        lemma_digits_value_prefix_le(head, k);
        assert(s.take(k) =~= head.take(k));
        lemma_digits_value_nonneg(head);
        assert(digits_value(s) == digits_value(head) * 10 + digit_val(s.last()));
        assert(digits_value(head) * 10 >= digits_value(head));
        assert(is_digit(s[s.len() - 1]));
    }
}

/// Reads a `u64` written in decimal, with an optional leading `+`, rejecting
/// anything else and any value past `u64::MAX`.
pub fn parse_u64_str(s: &str) -> (r: Option<u64>)
    ensures
        r == spec_parse_u64(s@),
{
    let ghost digits: Seq<char> = if s@.len() > 0 && s@[0] == '+' {
        s@.skip(1)
    } else {
        s@
    };
    let n = s.unicode_len();
    let mut start: usize = 0;
    if n > 0 && s.get_char(0) as u32 == 43 {
        start = 1;
    }
    proof {
        assert('+' as u32 == 43);
        assert(digits =~= s@.skip(start as int));
    }
    if n == start {
        return None;
    }
    let mut acc: u64 = 0;
    let mut i: usize = start;
    while i < n
        invariant
            start <= i <= n,
            start < n,
            n == s@.len(),
            digits == s@.skip(start as int),
            digits == (if s@.len() > 0 && s@[0] == '+' {
                s@.skip(1)
            } else {
                s@
            }),
            forall|j: int| start <= j < i ==> is_digit(s@[j]),
            acc as int == digits_value(s@.subrange(start as int, i as int)),
        decreases n - i,
    {
        let c = s.get_char(i);
        let u = c as u32;
        if u < 48 || u > 57 {
            proof {
                assert(digits[i - start] == s@[i as int]);
                assert(!is_digit(s@[i as int]));
                assert(!all_digits(digits));
            }
            return None;
        }
        let d: u64 = (u - 48) as u64;
        proof {
            assert(is_digit(s@[i as int]));
            assert(digit_val(s@[i as int]) == d as int);
            let pre = s@.subrange(start as int, i as int);
            assert(s@.subrange(start as int, i + 1) =~= pre.push(s@[i as int]));
            assert(pre.push(s@[i as int]).drop_last() =~= pre);
            assert(pre.push(s@[i as int]).last() == s@[i as int]);
            assert(digits_value(s@.subrange(start as int, i + 1)) == acc as int * 10 + d as int);
        }
        let step = match acc.checked_mul(10) {
            Some(t) => t.checked_add(d),
            None => None,
        };
        match step {
            Some(v) => {
                acc = v;
                i = i + 1;
            },
            None => {
                proof {
                    if all_digits(digits) {
                        assert(digits_value(s@.subrange(start as int, i + 1)) > u64::MAX);
                        assert(digits.take(i + 1 - start) =~= s@.subrange(start as int, i + 1));
                        lemma_digits_value_prefix_le(digits, i + 1 - start);
                    }
                }
                return None;
            },
        }
    }
    proof {
        assert(digits =~= s@.subrange(start as int, n as int));
        assert forall|j: int| 0 <= j < digits.len() implies is_digit(digits[j]) by {
            assert(digits[j] == s@[j + start]);
        }
        assert(digits.len() > 0);
    }
    Some(acc)
}

/// Stores the two parts of an exact-topic value of the shape
/// `urn:<hash_type>:<hash>`, and nothing otherwise.
fn apply_xt_value(m: &mut Magnet, value: &str)
    ensures
        final(m)@ == apply_xt(old(m)@, value@),
{
    let vlen = value.unicode_len();
    if vlen >= 4 {
        let p = value.substring_char(0, 4);
        proof {
            reveal_strlit("urn:");
            assert("urn:"@ =~= urn_prefix());
        }
        if str_eq(p, "urn:") {
            let rest = value.substring_char(4, vlen);
            match find_char_in(rest, ':') {
                Some(j) => {
                    proof {
                        lemma_find_char(rest@, ':');
                    }
                    let rlen = rest.unicode_len();
                    let ht = rest.substring_char(0, j);
                    let h = rest.substring_char(j + 1, rlen);
                    m.hash_type = Some(ht.to_owned());
                    m.hash = Some(h.to_owned());
                    proof {
                        assert(m@ =~= apply_xt(old(m)@, value@));
                    }
                },
                None => {},
            }
        }
    }
}

/// Applies one `key=value` fragment to the record; a fragment without `=` or
/// with an unrecognized key changes nothing.
fn apply_fragment(m: &mut Magnet, frag: &str)
    ensures
        final(m)@ == apply_param(old(m)@, frag@),
{
    match find_char_in(frag, '=') {
        None => {},
        Some(i) => {
            proof {
                lemma_find_char(frag@, '=');
                reveal_strlit("dn");
                reveal_strlit("xt");
                reveal_strlit("xl");
                reveal_strlit("tr");
                reveal_strlit("kt");
                reveal_strlit("ws");
                reveal_strlit("xs");
                reveal_strlit("as");
                reveal_strlit("mt");
                assert("dn"@ =~= key_dn());
                assert("xt"@ =~= key_xt());
                assert("xl"@ =~= key_xl());
                assert("tr"@ =~= key_tr());
                assert("kt"@ =~= key_kt());
                assert("ws"@ =~= key_ws());
                assert("xs"@ =~= key_xs());
                assert("as"@ =~= key_as());
                assert("mt"@ =~= key_mt());
            }
            let flen = frag.unicode_len();
            let key = frag.substring_char(0, i);
            let value = frag.substring_char(i + 1, flen);
            if str_eq(key, "dn") {
                m.display_name = Some(value.to_owned());
                proof {
                    assert(m@ =~= apply_param(old(m)@, frag@));
                }
            } else if str_eq(key, "xt") {
                apply_xt_value(m, value);
            } else if str_eq(key, "xl") {
                match parse_u64_str(value) {
                    Some(len) => {
                        m.length = Some(len);
                        proof {
                            assert(m@ =~= apply_param(old(m)@, frag@));
                        }
                    },
                    None => {},
                }
            } else if str_eq(key, "tr") {
                m.trackers.push(value.to_owned());
                proof {
                    assert(m.trackers.deep_view() =~= old(m).trackers.deep_view().push(value@));
                    assert(m@ =~= apply_param(old(m)@, frag@));
                }
            } else if str_eq(key, "kt") {
                m.search_keywords = Some(value.to_owned());
                proof {
                    assert(m@ =~= apply_param(old(m)@, frag@));
                }
            } else if str_eq(key, "ws") {
                m.web_seed = Some(value.to_owned());
                proof {
                    assert(m@ =~= apply_param(old(m)@, frag@));
                }
            } else if str_eq(key, "xs") {
                m.source = Some(value.to_owned());
                proof {
                    assert(m@ =~= apply_param(old(m)@, frag@));
                }
            } else if str_eq(key, "as") {
                m.acceptable_source = Some(value.to_owned());
                proof {
                    assert(m@ =~= apply_param(old(m)@, frag@));
                }
            } else if str_eq(key, "mt") {
                m.manifest = Some(value.to_owned());
                proof {
                    assert(m@ =~= apply_param(old(m)@, frag@));
                }
            }
        },
    }
}

/// Applies every `&`-separated fragment of `rest` to the record, in order.
fn apply_all_fragments(m: &mut Magnet, rest: &str)
    ensures
        final(m)@ == apply_params(old(m)@, split_amp(rest@)),
    decreases rest@.len(),
{
    match find_char_in(rest, '&') {
        None => {
            apply_fragment(m, rest);
            proof {
                let fs = split_amp(rest@);
                assert(fs == seq![rest@]);
                assert(fs.len() == 1);
                assert(fs[0] == rest@);
                assert(fs.skip(1) =~= Seq::<Seq<char>>::empty());
                assert(apply_params(old(m)@, fs) == apply_params(
                    apply_param(old(m)@, rest@),
                    fs.skip(1),
                ));
            }
        },
        Some(i) => {
            proof {
                lemma_find_char(rest@, '&');
            }
            let n = rest.unicode_len();
            let frag = rest.substring_char(0, i);
            apply_fragment(m, frag);
            let tail = rest.substring_char(i + 1, n);
            apply_all_fragments(m, tail);
            proof {
                let fs = split_amp(rest@);
                assert(fs == seq![rest@.take(i as int)] + split_amp(rest@.skip(i + 1)));
                assert(fs.len() == 1 + split_amp(rest@.skip(i + 1)).len());
                assert(fs[0] == rest@.take(i as int));
                assert(fs.skip(1) =~= split_amp(rest@.skip(i + 1)));
                assert(frag@ == rest@.take(i as int));
                assert(tail@ == rest@.skip(i + 1));
                assert(apply_params(old(m)@, fs) == apply_params(
                    apply_param(old(m)@, frag@),
                    split_amp(tail@),
                ));
            }
        },
    }
}

impl Magnet {
    /// Parse a magnet URL string into a `Magnet` record.
    ///
    /// Fails with `MagnetError::NotAMagnetURL` exactly when the string does
    /// not begin with `magnet:?`; any remainder after that prefix yields a
    /// record, malformed fragments contributing nothing.
    pub fn new(magnet_str: &str) -> (r: Result<Magnet, MagnetError>)
        ensures
            is_magnet_prefixed(magnet_str@) ==> (r matches Ok(m) && m@ == spec_parse(magnet_str@)),
            !is_magnet_prefixed(magnet_str@) ==> r == Err::<Magnet, MagnetError>(
                MagnetError::NotAMagnetURL,
            ),
    {
        let n = magnet_str.unicode_len();
        let mut prefixed = false;
        if n >= 8 {
            let p = magnet_str.substring_char(0, 8);
            prefixed = str_eq(p, "magnet:?");
        }
        proof {
            reveal_strlit("magnet:?");
            assert("magnet:?"@ =~= magnet_prefix());
        }
        if prefixed {
            Ok(Self::new_no_validation(magnet_str))
        } else {
            Err(MagnetError::NotAMagnetURL)
        }
    }

    /// Parse a magnet URL string without validating the prefix: the prefix
    /// is stripped when present, and the remainder is parsed fragment by
    /// fragment.
    fn new_no_validation(magnet_str: &str) -> (m: Magnet)
        ensures
            m@ == spec_parse(magnet_str@),
    {
        let n = magnet_str.unicode_len();
        let mut prefixed = false;
        if n >= 8 {
            let p = magnet_str.substring_char(0, 8);
            prefixed = str_eq(p, "magnet:?");
        }
        proof {
            reveal_strlit("magnet:?");
            assert("magnet:?"@ =~= magnet_prefix());
        }
        let rest: &str = if prefixed {
            magnet_str.substring_char(8, n)
        } else {
            magnet_str
        };
        proof {
            assert(rest@ == strip_magnet_prefix(magnet_str@));
        }
        let mut m = Magnet {
            display_name: None,
            hash_type: None,
            hash: None,
            length: None,
            source: None,
            trackers: Vec::new(),
            search_keywords: None,
            web_seed: None,
            acceptable_source: None,
            manifest: None,
        };
        proof {
            assert(m@ =~= empty_record());
        }
        apply_all_fragments(&mut m, rest);
        m
    }
}

} // verus!
