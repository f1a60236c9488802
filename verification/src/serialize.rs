//! Serialization of a magnet record back to its canonical string form.
//!
//! Emission order is fixed: the scheme prefix, the exact topic when a hash
//! is present, then display name, length, the trackers in order, web seed,
//! source, search keywords, acceptable source and manifest. Absent fields
//! contribute nothing.

use vstd::prelude::*;
use vstd::string::StringExecFns;
use crate::model::{Magnet, MagnetView};
use crate::parsing::{key_as, key_dn, key_kt, key_mt, key_ws, key_xs, magnet_prefix};

verus! {

/// The character of a decimal digit value.
pub open spec fn digit_char(d: int) -> char {
    if d == 0 {
        '0'
    } else if d == 1 {
        '1'
    } else if d == 2 {
        '2'
    } else if d == 3 {
        '3'
    } else if d == 4 {
        '4'
    } else if d == 5 {
        '5'
    } else if d == 6 {
        '6'
    } else if d == 7 {
        '7'
    } else if d == 8 {
        '8'
    } else {
        '9'
    }
}

/// The decimal form of a nonnegative number: no sign, no leading zeros.
pub open spec fn u64_dec(n: int) -> Seq<char>
    recommends
        n >= 0,
    decreases n,
{
    if n < 10 {
        seq![digit_char(n)]
    } else {
        u64_dec(n / 10).push(digit_char(n % 10))
    }
}

/// The contents of an optional field, or nothing.
pub open spec fn opt_or_empty(v: Option<Seq<char>>) -> Seq<char> {
    match v {
        Some(x) => x,
        None => Seq::empty(),
    }
}

/// A `&key=value` clause for a present field, and nothing for an absent one.
pub open spec fn amp_frag(key: Seq<char>, v: Option<Seq<char>>) -> Seq<char> {
    match v {
        Some(x) => seq!['&'] + key + seq!['='] + x,
        None => Seq::empty(),
    }
}

/// The exact-topic clause `xt=urn:<hash_type>:<hash>`, emitted only when the
/// hash is present; an absent hash type leaves its place empty.
pub open spec fn xt_part(m: MagnetView) -> Seq<char> {
    match m.hash {
        Some(h) => seq!['x', 't', '=', 'u', 'r', 'n', ':'] + opt_or_empty(m.hash_type) + seq![':']
            + h,
        None => Seq::empty(),
    }
}

/// The `&xl=<decimal>` clause for a present length.
pub open spec fn xl_part(length: Option<u64>) -> Seq<char> {
    match length {
        Some(n) => seq!['&', 'x', 'l', '='] + u64_dec(n as int),
        None => Seq::empty(),
    }
}

/// One `&tr=<value>` clause for each tracker, in order.
pub open spec fn tr_part(ts: Seq<Seq<char>>) -> Seq<char>
    decreases ts.len(),
{
    if ts.len() == 0 {
        Seq::empty()
    } else {
        seq!['&', 't', 'r', '='] + ts[0] + tr_part(ts.skip(1))
    }
}

/// The canonical string form of a record.
pub open spec fn spec_serialize(m: MagnetView) -> Seq<char> {
    magnet_prefix() + xt_part(m) + amp_frag(key_dn(), m.display_name) + xl_part(m.length)
        + tr_part(m.trackers) + amp_frag(key_ws(), m.web_seed) + amp_frag(key_xs(), m.source)
        + amp_frag(key_kt(), m.search_keywords) + amp_frag(key_as(), m.acceptable_source)
        + amp_frag(key_mt(), m.manifest)
}

/// Appending a tracker to the list appends its clause to the emission.
pub proof fn lemma_tr_part_snoc(ts: Seq<Seq<char>>, t: Seq<char>)
    ensures
        tr_part(ts.push(t)) == tr_part(ts) + (seq!['&', 't', 'r', '='] + t),
    decreases ts.len(),
{
    let ps = ts.push(t);
    if ts.len() == 0 {
        assert(ps[0] == t);
        assert(ps.skip(1) =~= Seq::<Seq<char>>::empty());
        assert(tr_part(ps) == seq!['&', 't', 'r', '='] + ps[0] + tr_part(ps.skip(1)));
        assert(tr_part(ps.skip(1)) == Seq::<char>::empty());
        assert(seq!['&', 't', 'r', '='] + t + Seq::<char>::empty() =~= seq!['&', 't', 'r', '=']
            + t);
        assert(tr_part(ts) == Seq::<char>::empty());
        assert(Seq::<char>::empty() + (seq!['&', 't', 'r', '='] + t) =~= seq!['&', 't', 'r', '=']
            + t);
    } else {
        assert(ps[0] == ts[0]);
        assert(ps.skip(1) =~= ts.skip(1).push(t));
        lemma_tr_part_snoc(ts.skip(1), t);
        assert(tr_part(ps) == seq!['&', 't', 'r', '='] + ps[0] + tr_part(ps.skip(1)));
        assert(tr_part(ts) == seq!['&', 't', 'r', '='] + ts[0] + tr_part(ts.skip(1)));
        assert(tr_part(ps) == seq!['&', 't', 'r', '='] + ts[0] + (tr_part(ts.skip(1)) + (seq![
            '&',
            't',
            'r',
            '=',
        ] + t)));
        assert(seq!['&', 't', 'r', '='] + ts[0] + (tr_part(ts.skip(1)) + (seq!['&', 't', 'r', '=']
            + t)) =~= tr_part(ts) + (seq!['&', 't', 'r', '='] + t));
    }
}

/// Appends the single digit `d`.
fn push_digit(out: &mut String, d: u64)
    requires
        d < 10,
    ensures
        final(out)@ == old(out)@ + seq![digit_char(d as int)],
{
    if d == 0 {
        out.append("0");
        proof {
            reveal_strlit("0");
            assert("0"@ =~= seq![digit_char(0)]);
        }
    } else if d == 1 {
        out.append("1");
        proof {
            reveal_strlit("1");
            assert("1"@ =~= seq![digit_char(1)]);
        }
    } else if d == 2 {
        out.append("2");
        proof {
            reveal_strlit("2");
            assert("2"@ =~= seq![digit_char(2)]);
        }
    } else if d == 3 {
        out.append("3");
        proof {
            reveal_strlit("3");
            assert("3"@ =~= seq![digit_char(3)]);
        }
    } else if d == 4 {
        out.append("4");
        proof {
            reveal_strlit("4");
            assert("4"@ =~= seq![digit_char(4)]);
        }
    } else if d == 5 {
        out.append("5");
        proof {
            reveal_strlit("5");
            assert("5"@ =~= seq![digit_char(5)]);
        }
    } else if d == 6 {
        out.append("6");
        proof {
            reveal_strlit("6");
            assert("6"@ =~= seq![digit_char(6)]);
        }
    } else if d == 7 {
        out.append("7");
        proof {
            reveal_strlit("7");
            assert("7"@ =~= seq![digit_char(7)]);
        }
    } else if d == 8 {
        out.append("8");
        proof {
            reveal_strlit("8");
            assert("8"@ =~= seq![digit_char(8)]);
        }
    } else {
        out.append("9");
        proof {
            reveal_strlit("9");
            assert("9"@ =~= seq![digit_char(9)]);
        }
    }
}

/// Appends `n` in decimal.
fn push_u64_dec(out: &mut String, n: u64)
    ensures
        final(out)@ == old(out)@ + u64_dec(n as int),
    decreases n,
{
    if n >= 10 {
        push_u64_dec(out, n / 10);
    }
    push_digit(out, n % 10);
    proof {
        if n < 10 {
            assert(u64_dec(n as int) == seq![digit_char(n as int)]);
        } else {
            assert(u64_dec(n as int) == u64_dec(n as int / 10).push(digit_char(n as int % 10)));
            assert(final(out)@ =~= old(out)@ + u64_dec(n as int));
        }
    }
}

/// Appends `&<key>=<value>` when the field is present, and nothing when it
/// is absent; `clause` must read `&<key>=`.
fn push_opt_frag(out: &mut String, clause: &str, v: &Option<String>, Ghost(key): Ghost<Seq<char>>)
    requires
        clause@ == seq!['&'] + key + seq!['='],
    ensures
        final(out)@ == old(out)@ + amp_frag(key, v.deep_view()),
{
    match v {
        Some(x) => {
            out.append(clause);
            out.append(x.as_str());
            proof {
                assert(final(out)@ =~= old(out)@ + amp_frag(key, v.deep_view()));
            }
        },
        None => {
            proof {
                assert(final(out)@ =~= old(out)@ + amp_frag(key, v.deep_view()));
            }
        },
    }
}

impl Magnet {
    /// The canonical magnet URL string for this record.
    #[verifier::rlimit(50)]
    pub fn to_string(&self) -> (s: String)
        ensures
            s@ == spec_serialize(self@),
    {
        let ghost t1 = magnet_prefix() + xt_part(self@);
        let ghost t2 = t1 + amp_frag(key_dn(), self@.display_name);
        let ghost t3 = t2 + xl_part(self@.length);
        let ghost t4 = t3 + tr_part(self@.trackers);
        let ghost t5 = t4 + amp_frag(key_ws(), self@.web_seed);
        let ghost t6 = t5 + amp_frag(key_xs(), self@.source);
        let ghost t7 = t6 + amp_frag(key_kt(), self@.search_keywords);
        let ghost t8 = t7 + amp_frag(key_as(), self@.acceptable_source);
        let ghost t9 = t8 + amp_frag(key_mt(), self@.manifest);
        let mut out = "magnet:?".to_owned();
        proof {
            reveal_strlit("magnet:?");
            assert(out@ =~= magnet_prefix());
        }
        match &self.hash {
            Some(h) => {
                out.append("xt=urn:");
                match &self.hash_type {
                    Some(ht) => out.append(ht.as_str()),
                    None => {},
                }
                out.append(":");
                out.append(h.as_str());
                proof {
                    reveal_strlit("xt=urn:");
                    reveal_strlit(":");
                    assert("xt=urn:"@ =~= seq!['x', 't', '=', 'u', 'r', 'n', ':']);
                    assert(out@ =~= t1);
                }
            },
            None => {
                proof {
                    assert(out@ =~= t1);
                }
            },
        }
        proof {
            reveal_strlit("&dn=");
            assert("&dn="@ =~= seq!['&'] + key_dn() + seq!['=']);
        }
        push_opt_frag(&mut out, "&dn=", &self.display_name, Ghost(key_dn()));
        proof {
            assert(out@ == t2);
        }
        match self.length {
            Some(n) => {
                out.append("&xl=");
                push_u64_dec(&mut out, n);
                proof {
                    reveal_strlit("&xl=");
                    assert("&xl="@ =~= seq!['&', 'x', 'l', '=']);
                    assert(out@ =~= t3);
                }
            },
            None => {
                proof {
                    assert(out@ =~= t3);
                }
            },
        }
        let ghost ts = self@.trackers;
        let n = self.trackers.len();
        let mut i: usize = 0;
        while i < n
            invariant
                0 <= i <= n,
                n == self.trackers.len(),
                ts == self.trackers.deep_view(),
                out@ == t3 + tr_part(ts.take(i as int)),
            decreases n - i,
        {
            out.append("&tr=");
            out.append(self.trackers[i].as_str());
            proof {
                reveal_strlit("&tr=");
                assert("&tr="@ =~= seq!['&', 't', 'r', '=']);
                assert(ts[i as int] == self.trackers@[i as int]@);
                assert(ts.take(i + 1) =~= ts.take(i as int).push(ts[i as int]));
                lemma_tr_part_snoc(ts.take(i as int), ts[i as int]);
                assert(out@ =~= t3 + tr_part(ts.take(i + 1)));
            }
            i = i + 1;
        }
        proof {
            assert(ts.take(n as int) =~= ts);
            assert(out@ == t4);
        }
        proof {
            reveal_strlit("&ws=");
            assert("&ws="@ =~= seq!['&'] + key_ws() + seq!['=']);
        }
        push_opt_frag(&mut out, "&ws=", &self.web_seed, Ghost(key_ws()));
        proof {
            assert(out@ == t5);
        }
        proof {
            reveal_strlit("&xs=");
            assert("&xs="@ =~= seq!['&'] + key_xs() + seq!['=']);
        }
        push_opt_frag(&mut out, "&xs=", &self.source, Ghost(key_xs()));
        proof {
            assert(out@ == t6);
        }
        proof {
            reveal_strlit("&kt=");
            assert("&kt="@ =~= seq!['&'] + key_kt() + seq!['=']);
        }
        push_opt_frag(&mut out, "&kt=", &self.search_keywords, Ghost(key_kt()));
        proof {
            assert(out@ == t7);
        }
        proof {
            reveal_strlit("&as=");
            assert("&as="@ =~= seq!['&'] + key_as() + seq!['=']);
        }
        push_opt_frag(&mut out, "&as=", &self.acceptable_source, Ghost(key_as()));
        proof {
            assert(out@ == t8);
        }
        proof {
            reveal_strlit("&mt=");
            assert("&mt="@ =~= seq!['&'] + key_mt() + seq!['=']);
        }
        push_opt_frag(&mut out, "&mt=", &self.manifest, Ghost(key_mt()));
        proof {
            assert(out@ == t9);
        }
        proof {
            assert(t9 == spec_serialize(self@));
        }
        out
    }
}

} // verus!
