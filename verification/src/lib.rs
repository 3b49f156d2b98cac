//! Convert unsigned integers into English words using the short scale,
//! where each scale word (thousand, million, billion, trillion,
//! quadrillion) names a magnitude a thousand times the previous one.
//!
//! Values from 0 to 999_999_999_999_999_999 get a grammatical
//! decomposition; larger values render as the sentinel "(big number)".

use vstd::prelude::*;

pub mod extra;
pub mod words;

verus! {

use vstd::string::StringExecFns;
use crate::words::{
    word,
    and_key,
    keys_tens_and_units,
    keys_hundreds,
    keys_group,
    keys_scale,
    keys_all,
    render,
    emitted,
    spec_shortscale,
    map_word,
    lemma_render_push,
    lemma_render_concat,
    lemma_emitted_concat,
};
use vstd::seq_lib::lemma_concat_associative;

/// Returns the English short-scale words for `num`.
///
/// Values above 999_999_999_999_999_999 give the sentinel "(big number)".
pub fn shortscale(num: u64) -> (r: String)
    ensures
        r@ == spec_shortscale(num as int),
{
    let mut s = String::new();
    shortscale_string_writer(&mut s, num);
    proof {
        assert(s@ =~= spec_shortscale(num as int));
    }
    s
}

/// Same as [`shortscale`] but appends the words to a caller-supplied
/// `String`, leaving what already stands in it untouched.
#[verifier::rlimit(100)]
pub fn shortscale_string_writer(s: &mut String, num: u64)
    ensures
        final(s)@ == old(s)@ + spec_shortscale(num as int),
{
    if num <= 20 || num > 999_999_999_999_999_999 {
        s.append(map_word(num));
        return;
    }
    let ghost n = num as int;
    let ghost k1 = keys_scale(n, 1_000_000_000_000_000);
    let ghost k2 = keys_scale(n, 1_000_000_000_000);
    let ghost k3 = keys_scale(n, 1_000_000_000);
    let ghost k4 = keys_scale(n, 1_000_000);
    let ghost k5 = keys_scale(n, 1_000);
    let ghost kh = keys_hundreds(n);
    let ghost tu = keys_tens_and_units(n);
    let mut len: usize = 0;
    let ghost s0 = s@;
    push_scale(s, &mut len, num, 1_000_000_000_000_000);  // quadrillions
    proof {
        assert(s@ == s0 + emitted(false, k1));
        assert(len > 0 <==> k1.len() > 0);
    }
    push_scale(s, &mut len, num, 1_000_000_000_000);  // trillions
    proof {
        lemma_concat_associative(s0, emitted(false, k1), emitted(k1.len() > 0, k2));
        lemma_emitted_concat(false, k1, k2);
        assert(s@ == s0 + emitted(false, k1 + k2));
        assert(len > 0 <==> (k1 + k2).len() > 0);
    }
    push_scale(s, &mut len, num, 1_000_000_000);  // billions
    proof {
        lemma_concat_associative(s0, emitted(false, k1 + k2), emitted((k1 + k2).len() > 0, k3));
        lemma_emitted_concat(false, k1 + k2, k3);
        assert(s@ == s0 + emitted(false, k1 + k2 + k3));
        assert(len > 0 <==> (k1 + k2 + k3).len() > 0);
    }
    push_scale(s, &mut len, num, 1_000_000);  // millions
    proof {
        lemma_concat_associative(
            s0,
            emitted(false, k1 + k2 + k3),
            emitted((k1 + k2 + k3).len() > 0, k4),
        );
        lemma_emitted_concat(false, k1 + k2 + k3, k4);
        assert(s@ == s0 + emitted(false, k1 + k2 + k3 + k4));
        assert(len > 0 <==> (k1 + k2 + k3 + k4).len() > 0);
    }
    push_scale(s, &mut len, num, 1_000);  // thousands
    proof {
        lemma_concat_associative(
            s0,
            emitted(false, k1 + k2 + k3 + k4),
            emitted((k1 + k2 + k3 + k4).len() > 0, k5),
        );
        lemma_emitted_concat(false, k1 + k2 + k3 + k4, k5);
        assert(s@ == s0 + emitted(false, k1 + k2 + k3 + k4 + k5));
        assert(len > 0 <==> (k1 + k2 + k3 + k4 + k5).len() > 0);
    }
    push_hundreds(s, &mut len, num);
    let ghost p = k1 + k2 + k3 + k4 + k5 + kh;
    proof {
        lemma_concat_associative(
            s0,
            emitted(false, k1 + k2 + k3 + k4 + k5),
            emitted((k1 + k2 + k3 + k4 + k5).len() > 0, kh),
        );
        lemma_emitted_concat(false, k1 + k2 + k3 + k4 + k5, kh);
        assert(s@ == s0 + emitted(false, p));
        assert(len > 0 <==> p.len() > 0);
    }
    let and_word: bool = len > 0;
    push_tens_and_units(s, &mut len, num, and_word);
    proof {
        let ks_last = if and_word && tu.len() > 0 {
            seq![and_key()] + tu
        } else {
            tu
        };
        lemma_concat_associative(s0, emitted(false, p), emitted(p.len() > 0, ks_last));
        lemma_emitted_concat(false, p, ks_last);
        assert(s@ == s0 + emitted(false, p + ks_last));
        if tu.len() == 0 {
            assert(p + ks_last =~= p);
            assert(keys_all(n) == p);
        } else if p.len() == 0 {
            assert(p + ks_last =~= tu);
            assert(keys_all(n) == tu);
        } else {
            lemma_concat_associative(p, seq![and_key()], tu);
            assert(p + ks_last == keys_all(n));
        }
        assert(s@ == s0 + emitted(false, keys_all(n)));
        assert(emitted(false, keys_all(n)) == render(keys_all(n)));
    }
}

/// Appends one word, preceded by a space when this conversion has
/// already written a word (`*len > 0`); `len` records that a word now
/// stands in the buffer.
fn push_word(s: &mut String, len: &mut usize, w: &str)
    ensures
        final(s)@ == old(s)@ + (if *old(len) > 0 {
            " "@
        } else {
            Seq::<char>::empty()
        }) + w@,
        *final(len) == 1,
{
    if *len > 0 {
        s.append(" ");
    }
    s.append(w);
    *len = 1;
}

/// Appends the words of the tens-and-units part of `num`, preceded by
/// "and" when `and_word` asks for it and the part is non-empty.
#[verifier::rlimit(60)]
fn push_tens_and_units(s: &mut String, len: &mut usize, num: u64, and_word: bool)
    ensures
        ({
            let tu = keys_tens_and_units(num as int);
            let ks = if and_word && tu.len() > 0 {
                seq![and_key()] + tu
            } else {
                tu
            };
            &&& final(s)@ == old(s)@ + emitted(*old(len) > 0, ks)
            &&& *final(len) == (if tu.len() == 0 {
                *old(len) as int
            } else {
                1int
            })
        }),
{
    let m = num % 100;
    if m == 0 {
        proof {
            assert(s@ + emitted(*len > 0, keys_tens_and_units(num as int)) =~= s@);
        }
        return;
    }
    let ghost st0 = *len > 0;
    let ghost s0 = s@;
    if and_word {
        push_word(s, len, "and");
    }
    if m <= 20 {
        push_word(s, len, map_word(m));
    } else {
        push_word(s, len, map_word(m / 10 * 10));
        let u = m % 10;
        if u != 0 {
            push_word(s, len, map_word(u));
        }
    }
    proof {
        let tu = keys_tens_and_units(num as int);
        let mi = m as int;
        if m % 10 == 0 || m <= 20 {
            assert(tu =~= seq![mi]);
            assert(m > 20 ==> mi / 10 * 10 == mi);
            assert(render(tu) == word(mi));
        } else {
            assert(tu =~= seq![mi / 10 * 10, mi % 10]);
            lemma_render_push(seq![mi / 10 * 10], mi % 10);
            assert(seq![mi / 10 * 10].push(mi % 10) =~= tu);
            assert(render(tu) == word(mi / 10 * 10) + " "@ + word(mi % 10));
        }
        if and_word {
            let ks = seq![and_key()] + tu;
            lemma_render_concat(seq![and_key()], tu);
            assert(render(seq![and_key()]) == word(and_key()));
            crate::words::lemma_word_and();
            assert(render(ks) == "and"@ + " "@ + render(tu));
            assert(s@ =~= s0 + emitted(st0, ks));
        } else {
            assert(s@ =~= s0 + emitted(st0, tu));
        }
    }
}

/// Appends the words of the hundreds part of `num`: its hundreds digit
/// followed by the word "hundred", or nothing when that digit is zero.
fn push_hundreds(s: &mut String, len: &mut usize, num: u64)
    ensures
        final(s)@ == old(s)@ + emitted(*old(len) > 0, keys_hundreds(num as int)),
        *final(len) == (if keys_hundreds(num as int).len() == 0 {
            *old(len) as int
        } else {
            1int
        }),
{
    let h = num / 100 % 10;
    if h == 0 {
        proof {
            assert(s@ + emitted(*len > 0, keys_hundreds(num as int)) =~= s@);
        }
        return;
    }
    let ghost st0 = *len > 0;
    let ghost s0 = s@;
    push_word(s, len, map_word(h));
    push_word(s, len, map_word(100));
    proof {
        let kh = keys_hundreds(num as int);
        lemma_render_push(seq![h as int], 100);
        assert(seq![h as int].push(100) =~= kh);
        assert(s@ =~= s0 + emitted(st0, kh));
    }
}

/// Appends the words of the scale group `num / thousands % 1000`
/// followed by the scale's own word, or nothing when that group is zero.
fn push_scale(s: &mut String, len: &mut usize, num: u64, thousands: u64)
    requires
        1 <= thousands,
    ensures
        final(s)@ == old(s)@ + emitted(*old(len) > 0, keys_scale(num as int, thousands as int)),
        *final(len) == (if keys_scale(num as int, thousands as int).len() == 0 {
            *old(len) as int
        } else {
            1int
        }),
{
    let g = num / thousands % 1_000;
    if g == 0 {
        proof {
            assert(s@ + emitted(*len > 0, keys_scale(num as int, thousands as int)) =~= s@);
        }
        return;
    }
    let ghost st0 = *len > 0;
    let ghost s0 = s@;
    push_hundreds(s, len, g);
    let and_word: bool = (g / 100 % 10) > 0;
    push_tens_and_units(s, len, g, and_word);
    push_word(s, len, map_word(thousands));
    proof {
        let th = thousands as int;
        let gi = g as int;
        let kh = keys_hundreds(gi);
        let tu = keys_tens_and_units(gi);
        let ks2 = if and_word && tu.len() > 0 {
            seq![and_key()] + tu
        } else {
            tu
        };
        let grp = keys_group(gi);
        assert(and_word <==> kh.len() > 0);
        assert(kh + ks2 =~= grp);
        assert(grp.len() > 0);
        lemma_emitted_concat(st0, kh, ks2);
        assert(emitted(st0, kh) + emitted(st0 || kh.len() > 0, ks2) == emitted(st0, grp));
        assert(s@ =~= s0 + emitted(st0, grp) + " "@ + word(th));
        lemma_render_push(grp, th);
        assert(keys_scale(num as int, th) == grp.push(th));
        assert(emitted(st0, grp.push(th)) =~= emitted(st0, grp) + " "@ + word(th));
        assert(s@ =~= s0 + emitted(st0, keys_scale(num as int, th)));
    }
}

} // verus!
