//! The laws the parser and serializer obey together: the round trip for
//! fully-populated records, preservation of tracker order, last-value-wins
//! for repeated singular keys, omission of absent fields, and equality over
//! the ten fields alone.

use vstd::prelude::*;
use vstd::arithmetic::div_mod::lemma_fundamental_div_mod;
use crate::model::{empty_record, MagnetView};
use crate::parsing::{
    all_digits, apply_param, apply_params, apply_xt, digit_val, digits_value, frag_key_value,
    is_digit, is_magnet_prefixed, key_as, key_dn, key_kt, key_mt, key_tr, key_ws, key_xl, key_xs,
    key_xt, magnet_prefix, spec_parse, spec_parse_u64, split_amp, strip_magnet_prefix, urn_prefix,
};
use crate::serialize::{
    amp_frag, digit_char, opt_or_empty, spec_serialize, tr_part, u64_dec, xl_part, xt_part,
};
use crate::text::{find_char, lemma_find_char_at, lemma_find_char_none};

verus! {

/// A character occurs in a concatenation exactly when it occurs in a part.
pub proof fn lemma_concat_contains(a: Seq<char>, b: Seq<char>, c: char)
    ensures
        (a + b).contains(c) <==> (a.contains(c) || b.contains(c)),
{
    if (a + b).contains(c) {
        let i = choose|i: int| 0 <= i < (a + b).len() && (a + b)[i] == c;
        if i < a.len() {
            assert(a[i] == c);
        } else {
            assert(b[i - a.len()] == c);
        }
    }
    if a.contains(c) {
        let i = choose|i: int| 0 <= i < a.len() && a[i] == c;
        assert((a + b)[i] == c);
    }
    if b.contains(c) {
        let i = choose|i: int| 0 <= i < b.len() && b[i] == c;
        assert((a + b)[a.len() + i] == c);
    }
}

/// Splitting a `key=value` fragment at its first `=` yields the key and the
/// value, whatever the value holds.
pub proof fn lemma_frag_key_value(key: Seq<char>, v: Seq<char>)
    requires
        !key.contains('='),
    ensures
        frag_key_value(key + seq!['='] + v) == Some((key, v)),
{
    let f = key + seq!['='] + v;
    assert(f[key.len() as int] == '=');
    assert forall|j: int| 0 <= j < key.len() implies f[j] != '=' by {
        assert(f[j] == key[j]);
    }
    lemma_find_char_at(f, '=', key.len() as int);
    assert(f.take(key.len() as int) =~= key);
    assert(f.skip(key.len() as int + 1) =~= v);
}

/// A fragment free of `&` followed by `&` and a remainder splits into that
/// fragment and the split of the remainder.
pub proof fn lemma_split_amp_prepend(f: Seq<char>, rest: Seq<char>)
    requires
        !f.contains('&'),
    ensures
        split_amp(f + seq!['&'] + rest) == seq![f] + split_amp(rest),
{
    let s = f + seq!['&'] + rest;
    assert(s[f.len() as int] == '&');
    assert forall|j: int| 0 <= j < f.len() implies s[j] != '&' by {
        assert(s[j] == f[j]);
    }
    lemma_find_char_at(s, '&', f.len() as int);
    assert(s.take(f.len() as int) =~= f);
    assert(s.skip(f.len() as int + 1) =~= rest);
}

/// A fragment free of `&` is its own whole split.
pub proof fn lemma_split_amp_alone(f: Seq<char>)
    requires
        !f.contains('&'),
    ensures
        split_amp(f) == seq![f],
{
    assert forall|j: int| 0 <= j < f.len() implies f[j] != '&' by {}
    lemma_find_char_none(f, '&');
}

/// A head fragment followed by `&`-led clauses, one per later fragment.
pub open spec fn join_rest(fs: Seq<Seq<char>>) -> Seq<char>
    decreases fs.len(),
{
    if fs.len() == 0 {
        Seq::empty()
    } else {
        seq!['&'] + fs[0] + join_rest(fs.skip(1))
    }
}

/// Splitting a head fragment and its `&`-led clauses recovers the fragments.
pub proof fn lemma_split_amp_join(f0: Seq<char>, fs: Seq<Seq<char>>)
    requires
        !f0.contains('&'),
        forall|i: int| 0 <= i < fs.len() ==> !(#[trigger] fs[i]).contains('&'),
    ensures
        split_amp(f0 + join_rest(fs)) == seq![f0] + fs,
    decreases fs.len(),
{
    if fs.len() == 0 {
        assert(f0 + join_rest(fs) =~= f0);
        lemma_split_amp_alone(f0);
    } else {
        let tail = fs[0] + join_rest(fs.skip(1));
        assert(f0 + join_rest(fs) =~= f0 + seq!['&'] + tail);
        lemma_split_amp_prepend(f0, tail);
        assert(forall|i: int|
            0 <= i < fs.skip(1).len() ==> fs.skip(1)[i] == fs[i + 1]);
        lemma_split_amp_join(fs[0], fs.skip(1));
        assert(seq![f0] + (seq![fs[0]] + fs.skip(1)) =~= seq![f0] + fs);
    }
}

/// The decimal form of a nonnegative number is one or more digits denoting
/// that number.
pub proof fn lemma_u64_dec_digits(n: int)
    requires
        n >= 0,
    ensures
        u64_dec(n).len() >= 1,
        all_digits(u64_dec(n)),
        digits_value(u64_dec(n)) == n,
    decreases n,
{
    if n < 10 {
        let s = u64_dec(n);
        assert(s == seq![digit_char(n)]);
        assert(s.drop_last() =~= Seq::<char>::empty());
        assert(s.last() == digit_char(n));
        assert(digit_val(digit_char(n)) == n);
        assert(is_digit(s[0]));
        assert(digits_value(s) == digits_value(s.drop_last()) * 10 + digit_val(s.last()));
        assert(digits_value(Seq::<char>::empty()) == 0);
        assert(digits_value(s) == n);
    } else {
        lemma_u64_dec_digits(n / 10);
        let head = u64_dec(n / 10);
        let s = u64_dec(n);
        assert(s == head.push(digit_char(n % 10)));
        assert(s.drop_last() =~= head);
        assert(s.last() == digit_char(n % 10));
        lemma_fundamental_div_mod(n, 10);
        assert(digit_val(digit_char(n % 10)) == n % 10);
        assert(digits_value(s) == n);
        assert forall|i: int| 0 <= i < s.len() implies is_digit(s[i]) by {
            if i < head.len() {
                assert(s[i] == head[i]);
            } else {
                assert(s[i] == digit_char(n % 10));
            }
        }
    }
}

/// The decimal form of a `u64` parses back to that `u64`.
pub proof fn lemma_parse_u64_dec(n: u64)
    ensures
        spec_parse_u64(u64_dec(n as int)) == Some(n),
{
    lemma_u64_dec_digits(n as int);
    let s = u64_dec(n as int);
    assert(is_digit(s[0]));
    assert(s[0] != '+');
}

/// No decimal digit is an ampersand.
pub proof fn lemma_u64_dec_no_amp(n: int)
    requires
        n >= 0,
    ensures
        !u64_dec(n).contains('&'),
{
    lemma_u64_dec_digits(n);
    let s = u64_dec(n);
    if s.contains('&') {
        let i = choose|i: int| 0 <= i < s.len() && s[i] == '&';
        assert(is_digit(s[i]));
        assert(false);
    }
}

/// A two-character key holds neither of the separators unless one of its
/// characters is that separator.
proof fn lemma_two_char_free(key: Seq<char>, c: char)
    requires
        key.len() == 2,
        key[0] != c,
        key[1] != c,
    ensures
        !key.contains(c),
{
    if key.contains(c) {
        let i = choose|i: int| 0 <= i < key.len() && key[i] == c;
        assert(i == 0 || i == 1);
        assert(false);
    }
}

/// The four characters of `urn:` are free of the separators.
proof fn lemma_urn_prefix_free(c: char)
    requires
        c != 'u',
        c != 'r',
        c != 'n',
        c != ':',
    ensures
        !urn_prefix().contains(c),
{
    if urn_prefix().contains(c) {
        let i = choose|i: int| 0 <= i < urn_prefix().len() && urn_prefix()[i] == c;
        assert(i == 0 || i == 1 || i == 2 || i == 3);
        assert(false);
    }
}

/// A one-character sequence holds only its character.
proof fn lemma_singleton_free(x: char, c: char)
    requires
        x != c,
    ensures
        !seq![x].contains(c),
{
    if seq![x].contains(c) {
        let i = choose|i: int| 0 <= i < seq![x].len() && seq![x][i] == c;
        assert(i == 0);
        assert(false);
    }
}

/// The nine recognized keys are pairwise distinct.
proof fn lemma_keys_distinct()
    ensures
        key_dn() != key_xt(),
        key_dn() != key_xl(),
        key_dn() != key_tr(),
        key_dn() != key_kt(),
        key_dn() != key_ws(),
        key_dn() != key_xs(),
        key_dn() != key_as(),
        key_dn() != key_mt(),
        key_xt() != key_xl(),
        key_xt() != key_tr(),
        key_xt() != key_kt(),
        key_xt() != key_ws(),
        key_xt() != key_xs(),
        key_xt() != key_as(),
        key_xt() != key_mt(),
        key_xl() != key_tr(),
        key_xl() != key_kt(),
        key_xl() != key_ws(),
        key_xl() != key_xs(),
        key_xl() != key_as(),
        key_xl() != key_mt(),
        key_tr() != key_kt(),
        key_tr() != key_ws(),
        key_tr() != key_xs(),
        key_tr() != key_as(),
        key_tr() != key_mt(),
        key_kt() != key_ws(),
        key_kt() != key_xs(),
        key_kt() != key_as(),
        key_kt() != key_mt(),
        key_ws() != key_xs(),
        key_ws() != key_as(),
        key_ws() != key_mt(),
        key_xs() != key_as(),
        key_xs() != key_mt(),
        key_as() != key_mt(),
{
    assert(key_dn()[0] == 'd' && key_dn()[1] == 'n');
    assert(key_xt()[0] == 'x' && key_xt()[1] == 't');
    assert(key_xl()[0] == 'x' && key_xl()[1] == 'l');
    assert(key_tr()[0] == 't' && key_tr()[1] == 'r');
    assert(key_kt()[0] == 'k' && key_kt()[1] == 't');
    assert(key_ws()[0] == 'w' && key_ws()[1] == 's');
    assert(key_xs()[0] == 'x' && key_xs()[1] == 's');
    assert(key_as()[0] == 'a' && key_as()[1] == 's');
    assert(key_mt()[0] == 'm' && key_mt()[1] == 't');
}

/// Applying the head of a fragment list, then the rest.
proof fn lemma_apply_params_cons(m: MagnetView, f: Seq<char>, fs: Seq<Seq<char>>)
    ensures
        apply_params(m, seq![f] + fs) == apply_params(apply_param(m, f), fs),
{
    let all = seq![f] + fs;
    assert(all.len() == 1 + fs.len());
    assert(all[0] == f);
    assert(all.skip(1) =~= fs);
}

/// Applying a concatenation of fragment lists is applying one, then the
/// other.
proof fn lemma_apply_params_concat(m: MagnetView, a: Seq<Seq<char>>, b: Seq<Seq<char>>)
    ensures
        apply_params(m, a + b) == apply_params(apply_params(m, a), b),
    decreases a.len(),
{
    if a.len() == 0 {
        assert(a + b =~= b);
    } else {
        assert((a + b)[0] == a[0]);
        assert((a + b).skip(1) =~= a.skip(1) + b);
        assert((a + b).len() > 0);
        lemma_apply_params_concat(apply_param(m, a[0]), a.skip(1), b);
    }
}

/// A `dn=` fragment sets the display name.
proof fn lemma_apply_dn(m: MagnetView, v: Seq<char>)
    ensures
        apply_param(m, key_dn() + seq!['='] + v) == (MagnetView {
            display_name: Some(v),
            ..m
        }),
{
    lemma_two_char_free(key_dn(), '=');
    lemma_frag_key_value(key_dn(), v);
}

/// An `xt=urn:<hash_type>:<hash>` fragment sets both hash parts, provided
/// the hash type holds no colon of its own.
proof fn lemma_apply_xt_frag(m: MagnetView, ht: Seq<char>, h: Seq<char>)
    requires
        !ht.contains(':'),
    ensures
        apply_param(m, key_xt() + seq!['='] + (urn_prefix() + ht + seq![':'] + h)) == (MagnetView {
            hash_type: Some(ht),
            hash: Some(h),
            ..m
        }),
{
    let v = urn_prefix() + ht + seq![':'] + h;
    lemma_two_char_free(key_xt(), '=');
    lemma_frag_key_value(key_xt(), v);
    lemma_keys_distinct();
    assert(v.take(4) =~= urn_prefix());
    let rest = v.skip(4);
    assert(rest =~= ht + seq![':'] + h);
    assert(rest[ht.len() as int] == ':');
    assert forall|j: int| 0 <= j < ht.len() implies rest[j] != ':' by {
        assert(rest[j] == ht[j]);
    }
    lemma_find_char_at(rest, ':', ht.len() as int);
    assert(rest.take(ht.len() as int) =~= ht);
    assert(rest.skip(ht.len() as int + 1) =~= h);
}

/// An `xl=` fragment carrying the decimal form of a `u64` sets the length
/// to that number.
proof fn lemma_apply_xl(m: MagnetView, n: u64)
    ensures
        apply_param(m, key_xl() + seq!['='] + u64_dec(n as int)) == (MagnetView {
            length: Some(n),
            ..m
        }),
{
    lemma_two_char_free(key_xl(), '=');
    lemma_frag_key_value(key_xl(), u64_dec(n as int));
    lemma_keys_distinct();
    lemma_parse_u64_dec(n);
}

/// A `tr=` fragment appends its value to the trackers.
proof fn lemma_apply_tr(m: MagnetView, t: Seq<char>)
    ensures
        apply_param(m, key_tr() + seq!['='] + t) == (MagnetView {
            trackers: m.trackers.push(t),
            ..m
        }),
{
    lemma_two_char_free(key_tr(), '=');
    lemma_frag_key_value(key_tr(), t);
    lemma_keys_distinct();
}

/// A `kt=` fragment sets the search keywords.
proof fn lemma_apply_kt(m: MagnetView, v: Seq<char>)
    ensures
        apply_param(m, key_kt() + seq!['='] + v) == (MagnetView {
            search_keywords: Some(v),
            ..m
        }),
{
    lemma_two_char_free(key_kt(), '=');
    lemma_frag_key_value(key_kt(), v);
    lemma_keys_distinct();
}

/// A `ws=` fragment sets the web seed.
proof fn lemma_apply_ws(m: MagnetView, v: Seq<char>)
    ensures
        apply_param(m, key_ws() + seq!['='] + v) == (MagnetView { web_seed: Some(v), ..m }),
{
    lemma_two_char_free(key_ws(), '=');
    lemma_frag_key_value(key_ws(), v);
    lemma_keys_distinct();
}

/// An `xs=` fragment sets the source.
proof fn lemma_apply_xs(m: MagnetView, v: Seq<char>)
    ensures
        apply_param(m, key_xs() + seq!['='] + v) == (MagnetView { source: Some(v), ..m }),
{
    lemma_two_char_free(key_xs(), '=');
    lemma_frag_key_value(key_xs(), v);
    lemma_keys_distinct();
}

/// An `as=` fragment sets the acceptable source.
proof fn lemma_apply_as(m: MagnetView, v: Seq<char>)
    ensures
        apply_param(m, key_as() + seq!['='] + v) == (MagnetView {
            acceptable_source: Some(v),
            ..m
        }),
{
    lemma_two_char_free(key_as(), '=');
    lemma_frag_key_value(key_as(), v);
    lemma_keys_distinct();
}

/// An `mt=` fragment sets the manifest.
proof fn lemma_apply_mt(m: MagnetView, v: Seq<char>)
    ensures
        apply_param(m, key_mt() + seq!['='] + v) == (MagnetView { manifest: Some(v), ..m }),
{
    lemma_two_char_free(key_mt(), '=');
    lemma_frag_key_value(key_mt(), v);
    lemma_keys_distinct();
}

/// One `tr=<value>` fragment per tracker, in order.
pub open spec fn tr_frags(ts: Seq<Seq<char>>) -> Seq<Seq<char>>
    decreases ts.len(),
{
    if ts.len() == 0 {
        Seq::empty()
    } else {
        seq![key_tr() + seq!['='] + ts[0]] + tr_frags(ts.skip(1))
    }
}

/// The tracker fragments are as many as the trackers, each `tr=<value>`.
proof fn lemma_tr_frags_index(ts: Seq<Seq<char>>, i: int)
    requires
        0 <= i < ts.len(),
    ensures
        tr_frags(ts).len() == ts.len(),
        tr_frags(ts)[i] == key_tr() + seq!['='] + ts[i],
    decreases ts.len(),
{
    lemma_tr_frags_len(ts);
    if i == 0 {
    } else {
        lemma_tr_frags_index(ts.skip(1), i - 1);
        assert(ts.skip(1)[i - 1] == ts[i]);
        assert(tr_frags(ts)[i] == tr_frags(ts.skip(1))[i - 1]);
    }
}

/// As many tracker fragments as trackers.
proof fn lemma_tr_frags_len(ts: Seq<Seq<char>>)
    ensures
        tr_frags(ts).len() == ts.len(),
    decreases ts.len(),
{
    if ts.len() > 0 {
        lemma_tr_frags_len(ts.skip(1));
    }
}

/// Applying the tracker fragments appends the trackers, in order.
proof fn lemma_apply_params_tr(m: MagnetView, ts: Seq<Seq<char>>)
    ensures
        apply_params(m, tr_frags(ts)) == (MagnetView { trackers: m.trackers + ts, ..m }),
    decreases ts.len(),
{
    if ts.len() == 0 {
        assert(m.trackers + ts =~= m.trackers);
        assert((MagnetView { trackers: m.trackers + ts, ..m }) =~= m);
    } else {
        lemma_apply_params_cons(m, key_tr() + seq!['='] + ts[0], tr_frags(ts.skip(1)));
        assert(tr_frags(ts) == seq![key_tr() + seq!['='] + ts[0]] + tr_frags(ts.skip(1)));
        lemma_apply_tr(m, ts[0]);
        let m1 = MagnetView { trackers: m.trackers.push(ts[0]), ..m };
        lemma_apply_params_tr(m1, ts.skip(1));
        assert(m.trackers.push(ts[0]) + ts.skip(1) =~= m.trackers + ts);
    }
}

/// Concatenating fragment lists concatenates their `&`-led clauses.
proof fn lemma_join_rest_concat(a: Seq<Seq<char>>, b: Seq<Seq<char>>)
    ensures
        join_rest(a + b) == join_rest(a) + join_rest(b),
    decreases a.len(),
{
    if a.len() == 0 {
        assert(a + b =~= b);
        assert(join_rest(a) + join_rest(b) =~= join_rest(b));
    } else {
        assert((a + b)[0] == a[0]);
        assert((a + b).skip(1) =~= a.skip(1) + b);
        assert((a + b).len() > 0);
        lemma_join_rest_concat(a.skip(1), b);
        assert(seq!['&'] + a[0] + (join_rest(a.skip(1)) + join_rest(b)) =~= (seq!['&'] + a[0]
            + join_rest(a.skip(1))) + join_rest(b));
    }
}

/// The tracker clauses of the emission are the `&`-led clauses of the
/// tracker fragments.
proof fn lemma_tr_part_join(ts: Seq<Seq<char>>)
    ensures
        tr_part(ts) == join_rest(tr_frags(ts)),
    decreases ts.len(),
{
    if ts.len() == 0 {
    } else {
        lemma_tr_part_join(ts.skip(1));
        assert(tr_frags(ts)[0] == key_tr() + seq!['='] + ts[0]);
        assert(tr_frags(ts).skip(1) =~= tr_frags(ts.skip(1)));
        assert(tr_frags(ts).len() > 0);
        assert(join_rest(tr_frags(ts)) == seq!['&'] + (key_tr() + seq!['='] + ts[0]) + join_rest(
            tr_frags(ts.skip(1)),
        ));
        assert(seq!['&'] + (key_tr() + seq!['='] + ts[0]) + tr_part(ts.skip(1)) =~= seq![
            '&',
            't',
            'r',
            '=',
        ] + ts[0] + tr_part(ts.skip(1)));
    }
}

/// Every singular field present and at least one tracker.
pub open spec fn fully_populated(m: MagnetView) -> bool {
    &&& m.display_name is Some
    &&& m.hash_type is Some
    &&& m.hash is Some
    &&& m.length is Some
    &&& m.source is Some
    &&& m.trackers.len() > 0
    &&& m.search_keywords is Some
    &&& m.web_seed is Some
    &&& m.acceptable_source is Some
    &&& m.manifest is Some
}

/// No value holds an `&`, which serialization would not escape, and the
/// hash type holds no `:`, which the exact topic uses as its own separator.
pub open spec fn serializable(m: MagnetView) -> bool {
    &&& (m.display_name is Some ==> !m.display_name->0.contains('&'))
    &&& (m.hash_type is Some ==> !m.hash_type->0.contains('&') && !m.hash_type->0.contains(':'))
    &&& (m.hash is Some ==> !m.hash->0.contains('&'))
    &&& (m.source is Some ==> !m.source->0.contains('&'))
    &&& (forall|i: int| 0 <= i < m.trackers.len() ==> !(#[trigger] m.trackers[i]).contains('&'))
    &&& (m.search_keywords is Some ==> !m.search_keywords->0.contains('&'))
    &&& (m.web_seed is Some ==> !m.web_seed->0.contains('&'))
    &&& (m.acceptable_source is Some ==> !m.acceptable_source->0.contains('&'))
    &&& (m.manifest is Some ==> !m.manifest->0.contains('&'))
}

/// The text of a `key=value` fragment.
pub open spec fn frag_of(key: Seq<char>, v: Seq<char>) -> Seq<char> {
    key + seq!['='] + v
}

/// The exact-topic fragment of a record whose hash and hash type are
/// present.
pub open spec fn xt_frag(m: MagnetView) -> Seq<char> {
    frag_of(key_xt(), urn_prefix() + opt_or_empty(m.hash_type) + seq![':'] + m.hash->0)
}

/// The fragments after the exact topic of a fully-populated record, in
/// emission order.
pub open spec fn later_frags(m: MagnetView) -> Seq<Seq<char>> {
    seq![
        frag_of(key_dn(), m.display_name->0),
        frag_of(key_xl(), u64_dec(m.length->0 as int)),
    ] + tr_frags(m.trackers) + seq![
        frag_of(key_ws(), m.web_seed->0),
        frag_of(key_xs(), m.source->0),
        frag_of(key_kt(), m.search_keywords->0),
        frag_of(key_as(), m.acceptable_source->0),
        frag_of(key_mt(), m.manifest->0),
    ]
}

/// The emission of a fully-populated record is the prefix, the exact topic,
/// and one `&`-led clause per later fragment.
#[verifier::rlimit(100)]
proof fn lemma_serialize_as_fragments(m: MagnetView)
    requires
        fully_populated(m),
    ensures
        spec_serialize(m) == magnet_prefix() + (xt_frag(m) + join_rest(later_frags(m))),
{
    let fdn = frag_of(key_dn(), m.display_name->0);
    let fxl = frag_of(key_xl(), u64_dec(m.length->0 as int));
    let fws = frag_of(key_ws(), m.web_seed->0);
    let fxs = frag_of(key_xs(), m.source->0);
    let fkt = frag_of(key_kt(), m.search_keywords->0);
    let fas = frag_of(key_as(), m.acceptable_source->0);
    let fmt = frag_of(key_mt(), m.manifest->0);
    let ts = m.trackers;
    let head2 = seq![fdn, fxl];
    let tail5 = seq![fws, fxs, fkt, fas, fmt];
    lemma_join_rest_concat(head2 + tr_frags(ts), tail5);
    lemma_join_rest_concat(head2, tr_frags(ts));
    lemma_tr_part_join(ts);
    assert(join_rest(Seq::<Seq<char>>::empty()) == Seq::<char>::empty());
    assert(head2.skip(1) =~= seq![fxl]);
    assert(seq![fxl].skip(1) =~= Seq::<Seq<char>>::empty());
    assert(join_rest(seq![fxl]) == seq!['&'] + fxl + join_rest(Seq::<Seq<char>>::empty()));
    assert(join_rest(head2) == seq!['&'] + fdn + join_rest(seq![fxl]));
    assert(tail5.skip(1) =~= seq![fxs, fkt, fas, fmt]);
    assert(seq![fxs, fkt, fas, fmt].skip(1) =~= seq![fkt, fas, fmt]);
    assert(seq![fkt, fas, fmt].skip(1) =~= seq![fas, fmt]);
    assert(seq![fas, fmt].skip(1) =~= seq![fmt]);
    assert(seq![fmt].skip(1) =~= Seq::<Seq<char>>::empty());
    assert(join_rest(seq![fmt]) == seq!['&'] + fmt + join_rest(Seq::<Seq<char>>::empty()));
    assert(join_rest(seq![fas, fmt]) == seq!['&'] + fas + join_rest(seq![fmt]));
    assert(join_rest(seq![fkt, fas, fmt]) == seq!['&'] + fkt + join_rest(seq![fas, fmt]));
    assert(join_rest(seq![fxs, fkt, fas, fmt]) == seq!['&'] + fxs + join_rest(
        seq![fkt, fas, fmt],
    ));
    assert(join_rest(tail5) == seq!['&'] + fws + join_rest(seq![fxs, fkt, fas, fmt]));
    assert(xt_part(m) =~= xt_frag(m));
    assert(amp_frag(key_dn(), m.display_name) =~= seq!['&'] + fdn);
    assert(xl_part(m.length) =~= seq!['&'] + fxl);
    assert(amp_frag(key_ws(), m.web_seed) =~= seq!['&'] + fws);
    assert(amp_frag(key_xs(), m.source) =~= seq!['&'] + fxs);
    assert(amp_frag(key_kt(), m.search_keywords) =~= seq!['&'] + fkt);
    assert(amp_frag(key_as(), m.acceptable_source) =~= seq!['&'] + fas);
    assert(amp_frag(key_mt(), m.manifest) =~= seq!['&'] + fmt);
    assert(spec_serialize(m) =~= magnet_prefix() + (xt_frag(m) + join_rest(later_frags(m))));
}

/// No fragment of a serializable fully-populated record holds an `&`.
proof fn lemma_fragments_no_amp(m: MagnetView)
    requires
        fully_populated(m),
        serializable(m),
    ensures
        !xt_frag(m).contains('&'),
        forall|i: int|
            0 <= i < later_frags(m).len() ==> !(#[trigger] later_frags(m)[i]).contains('&'),
{
    let ht = m.hash_type->0;
    let h = m.hash->0;
    let ts = m.trackers;
    lemma_two_char_free(key_dn(), '&');
    lemma_two_char_free(key_xt(), '&');
    lemma_two_char_free(key_xl(), '&');
    lemma_two_char_free(key_tr(), '&');
    lemma_two_char_free(key_kt(), '&');
    lemma_two_char_free(key_ws(), '&');
    lemma_two_char_free(key_xs(), '&');
    lemma_two_char_free(key_as(), '&');
    lemma_two_char_free(key_mt(), '&');
    lemma_singleton_free('=', '&');
    lemma_singleton_free(':', '&');
    lemma_urn_prefix_free('&');
    lemma_u64_dec_no_amp(m.length->0 as int);
    lemma_concat_contains(key_xt(), seq!['='], '&');
    lemma_concat_contains(urn_prefix(), ht, '&');
    lemma_concat_contains(urn_prefix() + ht, seq![':'], '&');
    lemma_concat_contains(urn_prefix() + ht + seq![':'], h, '&');
    lemma_concat_contains(key_xt() + seq!['='], urn_prefix() + ht + seq![':'] + h, '&');
    lemma_concat_contains(key_dn(), seq!['='], '&');
    lemma_concat_contains(key_dn() + seq!['='], m.display_name->0, '&');
    lemma_concat_contains(key_xl(), seq!['='], '&');
    lemma_concat_contains(key_xl() + seq!['='], u64_dec(m.length->0 as int), '&');
    lemma_concat_contains(key_ws(), seq!['='], '&');
    lemma_concat_contains(key_ws() + seq!['='], m.web_seed->0, '&');
    lemma_concat_contains(key_xs(), seq!['='], '&');
    lemma_concat_contains(key_xs() + seq!['='], m.source->0, '&');
    lemma_concat_contains(key_kt(), seq!['='], '&');
    lemma_concat_contains(key_kt() + seq!['='], m.search_keywords->0, '&');
    lemma_concat_contains(key_as(), seq!['='], '&');
    lemma_concat_contains(key_as() + seq!['='], m.acceptable_source->0, '&');
    lemma_concat_contains(key_mt(), seq!['='], '&');
    lemma_concat_contains(key_mt() + seq!['='], m.manifest->0, '&');
    lemma_tr_frags_len(ts);
    let fs = later_frags(m);
    assert forall|i: int| 0 <= i < fs.len() implies !(#[trigger] fs[i]).contains('&') by {
        if i < 2 {
        } else if i < 2 + ts.len() {
            assert(fs[i] == tr_frags(ts)[i - 2]);
            lemma_tr_frags_index(ts, i - 2);
            lemma_concat_contains(key_tr(), seq!['='], '&');
            lemma_concat_contains(key_tr() + seq!['='], ts[i - 2], '&');
        }
    }
}

/// Folding the exact topic and the later fragments over the empty record
/// rebuilds the record.
proof fn lemma_apply_fragments(m: MagnetView)
    requires
        fully_populated(m),
        !m.hash_type->0.contains(':'),
    ensures
        apply_params(empty_record(), seq![xt_frag(m)] + later_frags(m)) == m,
{
    let dn = m.display_name->0;
    let ht = m.hash_type->0;
    let h = m.hash->0;
    let l = m.length->0;
    let src = m.source->0;
    let ts = m.trackers;
    let kw = m.search_keywords->0;
    let ws = m.web_seed->0;
    let acc = m.acceptable_source->0;
    let mt = m.manifest->0;
    let fdn = frag_of(key_dn(), dn);
    let fxl = frag_of(key_xl(), u64_dec(l as int));
    let fws = frag_of(key_ws(), ws);
    let fxs = frag_of(key_xs(), src);
    let fkt = frag_of(key_kt(), kw);
    let fas = frag_of(key_as(), acc);
    let fmt = frag_of(key_mt(), mt);
    let tail5 = seq![fws, fxs, fkt, fas, fmt];
    let fs = later_frags(m);
    lemma_apply_params_cons(empty_record(), xt_frag(m), fs);
    lemma_apply_xt_frag(empty_record(), ht, h);
    let m1 = MagnetView { hash_type: Some(ht), hash: Some(h), ..empty_record() };
    let rest1 = seq![fxl] + (tr_frags(ts) + tail5);
    assert(fs =~= seq![fdn] + rest1);
    lemma_apply_params_cons(m1, fdn, rest1);
    lemma_apply_dn(m1, dn);
    let m2 = MagnetView { display_name: Some(dn), ..m1 };
    let rest2 = tr_frags(ts) + tail5;
    assert(rest1 =~= seq![fxl] + rest2);
    lemma_apply_params_cons(m2, fxl, rest2);
    lemma_apply_xl(m2, l);
    let m3 = MagnetView { length: Some(l), ..m2 };
    lemma_apply_params_concat(m3, tr_frags(ts), tail5);
    lemma_apply_params_tr(m3, ts);
    let m4 = MagnetView { trackers: m3.trackers + ts, ..m3 };
    let r1 = seq![fxs, fkt, fas, fmt];
    assert(tail5 =~= seq![fws] + r1);
    lemma_apply_params_cons(m4, fws, r1);
    lemma_apply_ws(m4, ws);
    let m5 = MagnetView { web_seed: Some(ws), ..m4 };
    let r2 = seq![fkt, fas, fmt];
    assert(r1 =~= seq![fxs] + r2);
    lemma_apply_params_cons(m5, fxs, r2);
    lemma_apply_xs(m5, src);
    let m6 = MagnetView { source: Some(src), ..m5 };
    let r3 = seq![fas, fmt];
    assert(r2 =~= seq![fkt] + r3);
    lemma_apply_params_cons(m6, fkt, r3);
    lemma_apply_kt(m6, kw);
    let m7 = MagnetView { search_keywords: Some(kw), ..m6 };
    let r4 = seq![fmt];
    assert(r3 =~= seq![fas] + r4);
    lemma_apply_params_cons(m7, fas, r4);
    lemma_apply_as(m7, acc);
    let m8 = MagnetView { acceptable_source: Some(acc), ..m7 };
    assert(r4 =~= seq![fmt] + Seq::<Seq<char>>::empty());
    lemma_apply_params_cons(m8, fmt, Seq::<Seq<char>>::empty());
    lemma_apply_mt(m8, mt);
    let m9 = MagnetView { manifest: Some(mt), ..m8 };
    assert(apply_params(empty_record(), seq![xt_frag(m)] + fs) == m9);
    assert(m9.trackers =~= ts);
    assert(m9 =~= m);
}

/// Round trip: parsing the canonical string of a fully-populated record
/// yields that record again, as long as no value holds an unescaped `&` and
/// the hash type holds no `:`.
pub proof fn lemma_round_trip(m: MagnetView)
    requires
        fully_populated(m),
        serializable(m),
    ensures
        spec_parse(spec_serialize(m)) == m,
{
    lemma_serialize_as_fragments(m);
    let full = spec_serialize(m);
    let rest = xt_frag(m) + join_rest(later_frags(m));
    assert(full.take(8) =~= magnet_prefix());
    assert(is_magnet_prefixed(full));
    assert(full.skip(8) =~= rest);
    assert(strip_magnet_prefix(full) == rest);
    lemma_fragments_no_amp(m);
    lemma_split_amp_join(xt_frag(m), later_frags(m));
    lemma_apply_fragments(m);
}

/// The values of the `tr=` fragments of a fragment list, in order.
pub open spec fn tr_values(fs: Seq<Seq<char>>) -> Seq<Seq<char>>
    decreases fs.len(),
{
    if fs.len() == 0 {
        Seq::empty()
    } else {
        let rest = tr_values(fs.skip(1));
        match frag_key_value(fs[0]) {
            Some((key, v)) => if key == key_tr() {
                seq![v] + rest
            } else {
                rest
            },
            None => rest,
        }
    }
}

/// Applying fragments appends exactly the `tr=` values to the trackers, in
/// fragment order.
proof fn lemma_apply_params_trackers(m: MagnetView, fs: Seq<Seq<char>>)
    ensures
        apply_params(m, fs).trackers == m.trackers + tr_values(fs),
    decreases fs.len(),
{
    if fs.len() == 0 {
        assert(m.trackers + tr_values(fs) =~= m.trackers);
    } else {
        let m1 = apply_param(m, fs[0]);
        lemma_apply_params_trackers(m1, fs.skip(1));
        match frag_key_value(fs[0]) {
            Some((key, v)) => {
                if key == key_tr() {
                    assert(m1.trackers == m.trackers.push(v));
                    assert(m.trackers.push(v) + tr_values(fs.skip(1)) =~= m.trackers + (seq![v]
                        + tr_values(fs.skip(1))));
                } else {
                    assert(m1.trackers == m.trackers);
                }
            },
            None => {
                assert(m1.trackers == m.trackers);
            },
        }
    }
}

/// Order preservation: the trackers of a parsed record are the `tr=` values
/// of the input's fragments, in the order they appear.
pub proof fn lemma_trackers_in_order(s: Seq<char>)
    ensures
        spec_parse(s).trackers == tr_values(split_amp(strip_magnet_prefix(s))),
{
    let fs = split_amp(strip_magnet_prefix(s));
    lemma_apply_params_trackers(empty_record(), fs);
    assert(Seq::<Seq<char>>::empty() + tr_values(fs) =~= tr_values(fs));
}

/// The value of the last fragment carrying `key`, if any.
pub open spec fn last_value_of(fs: Seq<Seq<char>>, key: Seq<char>) -> Option<Seq<char>>
    decreases fs.len(),
{
    if fs.len() == 0 {
        None
    } else {
        match last_value_of(fs.skip(1), key) {
            Some(v) => Some(v),
            None => match frag_key_value(fs[0]) {
                Some((k, v)) => if k == key {
                    Some(v)
                } else {
                    None
                },
                None => None,
            },
        }
    }
}

/// Applying fragments leaves the display name at the value of the last
/// `dn=` fragment, or where it was when there is none.
proof fn lemma_apply_params_display_name(m: MagnetView, fs: Seq<Seq<char>>)
    ensures
        apply_params(m, fs).display_name == (match last_value_of(fs, key_dn()) {
            Some(v) => Some(v),
            None => m.display_name,
        }),
    decreases fs.len(),
{
    if fs.len() > 0 {
        let m1 = apply_param(m, fs[0]);
        lemma_apply_params_display_name(m1, fs.skip(1));
    }
}

/// Last-value-wins: the display name of a parsed record is the value of the
/// last `dn=` fragment of the input, or absent when there is none.
pub proof fn lemma_last_value_wins(s: Seq<char>)
    ensures
        spec_parse(s).display_name == last_value_of(split_amp(strip_magnet_prefix(s)), key_dn()),
{
    let fs = split_amp(strip_magnet_prefix(s));
    lemma_apply_params_display_name(empty_record(), fs);
}

/// Absent-field omission: a record holding only the hash parts serializes
/// to the prefix and the exact-topic clause alone, with nothing trailing.
pub proof fn lemma_absent_fields_omitted(m: MagnetView)
    requires
        m.hash is Some,
        m.display_name is None,
        m.length is None,
        m.trackers == Seq::<Seq<char>>::empty(),
        m.web_seed is None,
        m.source is None,
        m.search_keywords is None,
        m.acceptable_source is None,
        m.manifest is None,
    ensures
        spec_serialize(m) == magnet_prefix() + seq!['x', 't', '=', 'u', 'r', 'n', ':']
            + opt_or_empty(m.hash_type) + seq![':'] + m.hash->0,
{
    assert(tr_part(m.trackers) == Seq::<char>::empty());
    assert(spec_serialize(m) =~= magnet_prefix() + seq!['x', 't', '=', 'u', 'r', 'n', ':']
        + opt_or_empty(m.hash_type) + seq![':'] + m.hash->0);
}

/// Equality ignores provenance: two record models are equal exactly when
/// their ten fields are, the trackers compared as an ordered sequence.
pub proof fn lemma_equality_by_fields(a: MagnetView, b: MagnetView)
    ensures
        (a == b) <==> (a.display_name == b.display_name && a.hash_type == b.hash_type && a.hash
            == b.hash && a.length == b.length && a.source == b.source && a.trackers == b.trackers
            && a.search_keywords == b.search_keywords && a.web_seed == b.web_seed
            && a.acceptable_source == b.acceptable_source && a.manifest == b.manifest),
{
    if a.display_name == b.display_name && a.hash_type == b.hash_type && a.hash == b.hash
        && a.length == b.length && a.source == b.source && a.trackers == b.trackers
        && a.search_keywords == b.search_keywords && a.web_seed == b.web_seed
        && a.acceptable_source == b.acceptable_source && a.manifest == b.manifest {
        assert(a =~= b);
    }
}

} // verus!
