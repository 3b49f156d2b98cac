//! Alternative builder strategies over the same decomposition: pushing
//! into a `String` keyed on buffer emptiness, collecting words in a
//! `Vec`, composing vectors functionally, and joining rendered pieces.
//! All of them produce exactly the text that [`crate::words::spec_shortscale`]
//! describes.

use vstd::prelude::*;

verus! {

use vstd::string::StringExecFns;
use vstd::seq_lib::lemma_concat_associative;
use crate::words::{
    word,
    and_key,
    keys_tens_and_units,
    keys_hundreds,
    keys_group,
    keys_scale,
    keys_all,
    render,
    emitted,
    spec_shortscale,
    map_word,
    lemma_word_and,
    lemma_render_push,
    lemma_render_concat,
    lemma_emitted_concat,
    lemma_render_well_spaced,
    str_views,
    words_of,
    render_words,
    lemma_words_of_concat,
};

type Strvec = Vec<&'static str>;

/// Builds the words by pushing `&str` pieces straight into the result
/// `String`, spacing on whether the buffer already holds text.
pub fn shortscale_str_push(num: u64) -> (r: String)
    ensures
        r@ == spec_shortscale(num as int),
{
    if num <= 20 || num > 999_999_999_999_999_999 {
        let mut s = String::new();
        s.append(map_word(num));
        proof {
            assert(s@ =~= word(num as int));
        }
        return s;
    }
    let ghost n = num as int;
    let ghost k1 = keys_scale(n, 1_000_000_000_000_000);
    let ghost k2 = keys_scale(n, 1_000_000_000_000);
    let ghost k3 = keys_scale(n, 1_000_000_000);
    let ghost k4 = keys_scale(n, 1_000_000);
    let ghost k5 = keys_scale(n, 1_000);
    let ghost kh = keys_hundreds(n);
    let ghost tu = keys_tens_and_units(n);
    let mut s = String::new();
    push_scale(&mut s, num, 1_000_000_000_000_000);  // quadrillions
    proof {
        assert(s@ =~= emitted(false, k1));
        lemma_render_well_spaced(k1);
        assert(s@.len() > 0 <==> k1.len() > 0);
    }
    push_scale(&mut s, num, 1_000_000_000_000);  // trillions
    proof {
        lemma_emitted_concat(false, k1, k2);
        assert(s@ == emitted(false, k1 + k2));
        lemma_render_well_spaced(k1 + k2);
        assert(s@.len() > 0 <==> (k1 + k2).len() > 0);
    }
    push_scale(&mut s, num, 1_000_000_000);  // billions
    proof {
        lemma_emitted_concat(false, k1 + k2, k3);
        assert(s@ == emitted(false, k1 + k2 + k3));
        lemma_render_well_spaced(k1 + k2 + k3);
        assert(s@.len() > 0 <==> (k1 + k2 + k3).len() > 0);
    }
    push_scale(&mut s, num, 1_000_000);  // millions
    proof {
        lemma_emitted_concat(false, k1 + k2 + k3, k4);
        assert(s@ == emitted(false, k1 + k2 + k3 + k4));
        lemma_render_well_spaced(k1 + k2 + k3 + k4);
        assert(s@.len() > 0 <==> (k1 + k2 + k3 + k4).len() > 0);
    }
    push_scale(&mut s, num, 1_000);  // thousands
    proof {
        lemma_emitted_concat(false, k1 + k2 + k3 + k4, k5);
        assert(s@ == emitted(false, k1 + k2 + k3 + k4 + k5));
        lemma_render_well_spaced(k1 + k2 + k3 + k4 + k5);
        assert(s@.len() > 0 <==> (k1 + k2 + k3 + k4 + k5).len() > 0);
    }
    push_hundreds(&mut s, num);
    let ghost p = k1 + k2 + k3 + k4 + k5 + kh;
    proof {
        lemma_emitted_concat(false, k1 + k2 + k3 + k4 + k5, kh);
        assert(s@ == emitted(false, p));
        lemma_render_well_spaced(p);
        assert(s@.len() > 0 <==> p.len() > 0);
    }
    let and_word: bool = !s.as_str().is_empty();
    push_tens_and_units(&mut s, num, and_word);
    proof {
        let ks_last = if and_word && tu.len() > 0 {
            seq![and_key()] + tu
        } else {
            tu
        };
        lemma_emitted_concat(false, p, ks_last);
        assert(s@ == emitted(false, p + ks_last));
        if tu.len() == 0 {
            assert(p + ks_last =~= p);
            assert(keys_all(n) == p);
        } else if p.len() == 0 {
            assert(p + ks_last =~= tu);
            assert(keys_all(n) == tu);
        } else {
            lemma_concat_associative(p, seq![and_key()], tu);
            assert(p + ks_last == keys_all(n));
        }
        assert(s@ == render(keys_all(n)));
    }
    s
}

/// Appends one word, preceded by a space when the buffer already holds
/// any text.
fn push_word(s: &mut String, w: &str)
    ensures
        final(s)@ == old(s)@ + (if old(s)@.len() > 0 {
            " "@
        } else {
            Seq::<char>::empty()
        }) + w@,
{
    if !s.as_str().is_empty() {
        s.append(" ");
    }
    s.append(w);
}

/// Appends the words of the tens-and-units part of `num`, preceded by
/// "and" when `and_word` asks for it and the part is non-empty.
#[verifier::rlimit(60)]
fn push_tens_and_units(s: &mut String, num: u64, and_word: bool)
    ensures
        ({
            let tu = keys_tens_and_units(num as int);
            let ks = if and_word && tu.len() > 0 {
                seq![and_key()] + tu
            } else {
                tu
            };
            final(s)@ == old(s)@ + emitted(old(s)@.len() > 0, ks)
        }),
{
    let m = num % 100;
    if m == 0 {
        proof {
            assert(s@ + emitted(s@.len() > 0, keys_tens_and_units(num as int)) =~= s@);
        }
        return;
    }
    let ghost st0 = s@.len() > 0;
    let ghost s0 = s@;
    if and_word {
        push_word(s, "and");
    }
    if m <= 20 {
        push_word(s, map_word(m));
    } else {
        push_word(s, map_word(m / 10 * 10));
        let u = m % 10;
        if u != 0 {
            push_word(s, map_word(u));
        }
    }
    proof {
        let tu = keys_tens_and_units(num as int);
        let mi = m as int;
        reveal_strlit("and");
        crate::words::lemma_word_well_spaced(mi);
        crate::words::lemma_word_well_spaced(mi / 10 * 10);
        crate::words::lemma_word_well_spaced(mi % 10);
        if m % 10 == 0 || m <= 20 {
            assert(tu =~= seq![mi]);
            assert(m > 20 ==> mi / 10 * 10 == mi);
            assert(render(tu) == word(mi));
        } else {
            assert(tu =~= seq![mi / 10 * 10, mi % 10]);
            lemma_render_push(seq![mi / 10 * 10], mi % 10);
            assert(seq![mi / 10 * 10].push(mi % 10) =~= tu);
            assert(render(tu) == word(mi / 10 * 10) + " "@ + word(mi % 10));
        }
        lemma_word_and();
        if and_word {
            let ks = seq![and_key()] + tu;
            lemma_render_concat(seq![and_key()], tu);
            assert(render(seq![and_key()]) == word(and_key()));
            assert(render(ks) == "and"@ + " "@ + render(tu));
            assert(s@ =~= s0 + emitted(st0, ks));
        } else {
            assert(s@ =~= s0 + emitted(st0, tu));
        }
    }
}

/// Appends the words of the hundreds part of `num`: its hundreds digit
/// followed by the word "hundred", or nothing when that digit is zero.
fn push_hundreds(s: &mut String, num: u64)
    ensures
        final(s)@ == old(s)@ + emitted(old(s)@.len() > 0, keys_hundreds(num as int)),
{
    let h = num / 100 % 10;
    if h == 0 {
        proof {
            assert(s@ + emitted(s@.len() > 0, keys_hundreds(num as int)) =~= s@);
        }
        return;
    }
    let ghost st0 = s@.len() > 0;
    let ghost s0 = s@;
    push_word(s, map_word(h));
    push_word(s, map_word(100));
    proof {
        let kh = keys_hundreds(num as int);
        lemma_render_push(seq![h as int], 100);
        assert(seq![h as int].push(100) =~= kh);
        crate::words::lemma_word_well_spaced(h as int);
        assert(s@ =~= s0 + emitted(st0, kh));
    }
}

/// Builds the words in a `Vec` and joins them with single spaces at
/// the end.
pub fn shortscale_vec_push(num: u64) -> (r: String)
    ensures
        r@ == spec_shortscale(num as int),
{
    if num <= 20 || num > 999_999_999_999_999_999 {
        let mut s = String::new();
        s.append(map_word(num));
        proof {
            assert(s@ =~= word(num as int));
        }
        return s;
    }
    let ghost n = num as int;
    let ghost k1 = keys_scale(n, 1_000_000_000_000_000);
    let ghost k2 = keys_scale(n, 1_000_000_000_000);
    let ghost k3 = keys_scale(n, 1_000_000_000);
    let ghost k4 = keys_scale(n, 1_000_000);
    let ghost k5 = keys_scale(n, 1_000);
    let ghost kh = keys_hundreds(n);
    let ghost tu = keys_tens_and_units(n);
    let mut v: Vec<&'static str> = Vec::new();
    proof {
        assert(str_views(v@) =~= words_of(Seq::<int>::empty()));
    }
    vec_push_scale(&mut v, num, 1_000_000_000_000_000);  // quadrillions
    proof {
        assert(str_views(v@) =~= words_of(k1));
    }
    vec_push_scale(&mut v, num, 1_000_000_000_000);  // trillions
    proof {
        lemma_words_of_concat(k1, k2);
        assert(str_views(v@) == words_of(k1 + k2));
    }
    vec_push_scale(&mut v, num, 1_000_000_000);  // billions
    proof {
        lemma_words_of_concat(k1 + k2, k3);
        assert(str_views(v@) == words_of(k1 + k2 + k3));
    }
    vec_push_scale(&mut v, num, 1_000_000);  // millions
    proof {
        lemma_words_of_concat(k1 + k2 + k3, k4);
        assert(str_views(v@) == words_of(k1 + k2 + k3 + k4));
    }
    vec_push_scale(&mut v, num, 1_000);  // thousands
    proof {
        lemma_words_of_concat(k1 + k2 + k3 + k4, k5);
        assert(str_views(v@) == words_of(k1 + k2 + k3 + k4 + k5));
    }
    vec_push_hundreds(&mut v, num);
    let ghost p = k1 + k2 + k3 + k4 + k5 + kh;
    proof {
        lemma_words_of_concat(k1 + k2 + k3 + k4 + k5, kh);
        assert(str_views(v@) == words_of(p));
        assert(v@.len() == p.len());
    }
    let and_word: bool = v.len() > 0;
    vec_push_tens_and_units(&mut v, num, and_word);
    proof {
        let ks_last = if and_word && tu.len() > 0 {
            seq![and_key()] + tu
        } else {
            tu
        };
        lemma_words_of_concat(p, ks_last);
        assert(str_views(v@) == words_of(p + ks_last));
        if tu.len() == 0 {
            assert(p + ks_last =~= p);
            assert(keys_all(n) == p);
        } else if p.len() == 0 {
            assert(p + ks_last =~= tu);
            assert(keys_all(n) == tu);
        } else {
            lemma_concat_associative(p, seq![and_key()], tu);
            assert(p + ks_last == keys_all(n));
        }
    }
    let r = join_spaces(&v);
    proof {
        crate::words::lemma_render_words_of(keys_all(n));
    }
    r
}

/// Joins the collected words with exactly one space between each pair.
fn join_spaces(v: &Vec<&'static str>) -> (r: String)
    ensures
        r@ == render_words(str_views(v@)),
{
    let mut s = String::new();
    let mut i: usize = 0;
    while i < v.len()
        invariant
            i <= v.len(),
            s@ == render_words(str_views(v@.take(i as int))),
        decreases v.len() - i,
    {
        if i > 0 {
            s.append(" ");
        }
        s.append(v[i]);
        proof {
            let ws = str_views(v@.take(i as int));
            assert(str_views(v@.take(i as int + 1)) =~= ws.push(v@[i as int]@));
            if i > 0 {
                crate::words::lemma_render_words_push(ws, v@[i as int]@);
            } else {
                assert(s@ =~= render_words(ws.push(v@[i as int]@)));
            }
        }
        i += 1;
    }
    proof {
        assert(v@.take(v@.len() as int) =~= v@);
    }
    s
}

/// Pushes the words of the tens-and-units part of `num`, preceded by
/// "and" when `and_word` asks for it and the part is non-empty.
fn vec_push_tens_and_units(v: &mut Vec<&'static str>, num: u64, and_word: bool)
    ensures
        ({
            let tu = keys_tens_and_units(num as int);
            let ks = if and_word && tu.len() > 0 {
                seq![and_key()] + tu
            } else {
                tu
            };
            str_views(final(v)@) == str_views(old(v)@) + words_of(ks)
        }),
{
    let m = num % 100;
    if m == 0 {
        proof {
            assert(str_views(v@) + words_of(keys_tens_and_units(num as int)) =~= str_views(v@));
        }
        return;
    }
    let ghost v0 = v@;
    if and_word {
        v.push("and");
    }
    if m <= 20 {
        v.push(map_word(m));
    } else {
        v.push(map_word(m / 10 * 10));
        let u = m % 10;
        if u != 0 {
            v.push(map_word(u));
        }
    }
    proof {
        let tu = keys_tens_and_units(num as int);
        let mi = m as int;
        let ks = if and_word {
            seq![and_key()] + tu
        } else {
            tu
        };
        lemma_word_and();
        assert(str_views(v@) =~= str_views(v0) + words_of(ks));
    }
}

/// Pushes the hundreds digit's word and "hundred" when that digit is
/// non-zero.
fn vec_push_hundreds(v: &mut Vec<&'static str>, num: u64)
    ensures
        str_views(final(v)@) == str_views(old(v)@) + words_of(keys_hundreds(num as int)),
{
    let h = num / 100 % 10;
    if h == 0 {
        proof {
            assert(str_views(v@) + words_of(keys_hundreds(num as int)) =~= str_views(v@));
        }
        return;
    }
    let ghost v0 = v@;
    v.push(map_word(h));
    v.push(map_word(100));
    proof {
        assert(str_views(v@) =~= str_views(v0) + words_of(keys_hundreds(num as int)));
    }
}

/// Pushes the words of the scale group `num / thousands % 1000`
/// followed by the scale's own word, or nothing when that group is zero.
fn vec_push_scale(v: &mut Vec<&'static str>, num: u64, thousands: u64)
    requires
        1 <= thousands,
    ensures
        str_views(final(v)@) == str_views(old(v)@) + words_of(
            keys_scale(num as int, thousands as int),
        ),
{
    let g = num / thousands % 1_000;
    if g == 0 {
        proof {
            assert(str_views(v@) + words_of(keys_scale(num as int, thousands as int)) =~= str_views(
                v@,
            ));
        }
        return;
    }
    let ghost v0 = v@;
    vec_push_hundreds(v, g);
    let and_word: bool = (g / 100 % 10) > 0;
    vec_push_tens_and_units(v, g, and_word);
    let ghost v2 = v@;
    let w = map_word(thousands);
    v.push(w);
    proof {
        crate::words::lemma_str_views_push(v2, w);
        let th = thousands as int;
        let gi = g as int;
        let kh = keys_hundreds(gi);
        let tu = keys_tens_and_units(gi);
        let ks2 = if and_word && tu.len() > 0 {
            seq![and_key()] + tu
        } else {
            tu
        };
        let grp = keys_group(gi);
        assert(and_word <==> kh.len() > 0);
        assert(kh + ks2 =~= grp);
        lemma_words_of_concat(kh, ks2);
        assert(words_of(grp) == words_of(kh) + words_of(ks2));
        assert(words_of(grp.push(th)) =~= words_of(grp).push(word(th)));
        assert(keys_scale(num as int, th) == grp.push(th));
        assert(str_views(v@) =~= str_views(v0) + words_of(grp).push(word(th)));
        assert(str_views(v0) + words_of(grp).push(word(th)) =~= str_views(v0) + words_of(
            grp.push(th),
        ));
    }
}

/// Builds the words by functional composition: every part returns its
/// own vector of words and the parts are concatenated.
pub fn shortscale_vec_concat(num: u64) -> (r: String)
    ensures
        r@ == spec_shortscale(num as int),
{
    if num <= 20 || num > 999_999_999_999_999_999 {
        let mut s = String::new();
        s.append(map_word(num));
        proof {
            assert(s@ =~= word(num as int));
        }
        return s;
    }
    let ghost n = num as int;
    let ghost k1 = keys_scale(n, 1_000_000_000_000_000);
    let ghost k2 = keys_scale(n, 1_000_000_000_000);
    let ghost k3 = keys_scale(n, 1_000_000_000);
    let ghost k4 = keys_scale(n, 1_000_000);
    let ghost k5 = keys_scale(n, 1_000);
    let ghost kh = keys_hundreds(n);
    let ghost tu = keys_tens_and_units(n);
    let v = scale(num, 1_000_000_000_000_000);  // quadrillions
    let v = concat_words(v, scale(num, 1_000_000_000_000));  // trillions
    proof {
        lemma_words_of_concat(k1, k2);
    }
    let v = concat_words(v, scale(num, 1_000_000_000));  // billions
    proof {
        lemma_words_of_concat(k1 + k2, k3);
    }
    let v = concat_words(v, scale(num, 1_000_000));  // millions
    proof {
        lemma_words_of_concat(k1 + k2 + k3, k4);
    }
    let v = concat_words(v, scale(num, 1_000));  // thousands
    proof {
        lemma_words_of_concat(k1 + k2 + k3 + k4, k5);
    }
    let v = concat_words(v, hundreds(num));
    let ghost p = k1 + k2 + k3 + k4 + k5 + kh;
    proof {
        lemma_words_of_concat(k1 + k2 + k3 + k4 + k5, kh);
        assert(str_views(v@) == words_of(p));
    }
    let v = concat_and(v, tens_and_units(num));
    proof {
        let aj = crate::words::and_join(p, tu);
        lemma_word_and();
        assert(words_of(seq![and_key()]) =~= seq!["and"@]);
        if p.len() > 0 && tu.len() > 0 {
            lemma_words_of_concat(p, seq![and_key()]);
            lemma_words_of_concat(p + seq![and_key()], tu);
        }
        assert(str_views(v@) == words_of(aj));
        assert(aj == keys_all(n));
    }
    let r = join_spaces(&v);
    proof {
        crate::words::lemma_render_words_of(keys_all(n));
    }
    r
}

/// The words of one atom: nothing for zero, its table word otherwise.
fn lookup(num: u64) -> (r: Strvec)
    ensures
        str_views(r@) == words_of(
            if num == 0 {
                Seq::<int>::empty()
            } else {
                seq![num as int]
            },
        ),
{
    let mut v: Strvec = Vec::new();
    if num != 0 {
        v.push(map_word(num));
    }
    proof {
        if num == 0 {
            assert(str_views(v@) =~= words_of(Seq::<int>::empty()));
        } else {
            assert(str_views(v@) =~= words_of(seq![num as int]));
        }
    }
    v
}

/// The words of the tens-and-units part of `num`.
fn tens_and_units(num: u64) -> (r: Strvec)
    ensures
        str_views(r@) == words_of(keys_tens_and_units(num as int)),
{
    let m = num % 100;
    if m <= 20 {
        let r = lookup(m);
        proof {
            assert(str_views(r@) =~= words_of(keys_tens_and_units(num as int)));
        }
        r
    } else {
        let r = concat_words(lookup(m / 10 * 10), lookup(m % 10));
        proof {
            let mi = m as int;
            assert(mi / 10 * 10 != 0);
            if mi % 10 == 0 {
                assert(mi / 10 * 10 == mi);
                assert(str_views(r@) =~= words_of(keys_tens_and_units(num as int)));
            } else {
                assert(seq![mi / 10 * 10] + seq![mi % 10] =~= keys_tens_and_units(num as int));
                lemma_words_of_concat(seq![mi / 10 * 10], seq![mi % 10]);
            }
        }
        r
    }
}

/// The words of the hundreds part of `num`.
fn hundreds(num: u64) -> (r: Strvec)
    ensures
        str_views(r@) == words_of(keys_hundreds(num as int)),
{
    let h = num / 100 % 10;
    if h == 0 {
        let v: Strvec = Vec::new();
        proof {
            assert(str_views(v@) =~= words_of(keys_hundreds(num as int)));
        }
        v
    } else {
        let r = concat_words(lookup(h), lookup(100));
        proof {
            assert(seq![h as int] + seq![100int] =~= keys_hundreds(num as int));
            lemma_words_of_concat(seq![h as int], seq![100int]);
        }
        r
    }
}

/// The words of the scale group `num / thousands % 1000` followed by
/// the scale's own word.
fn scale(num: u64, thousands: u64) -> (r: Strvec)
    requires
        1 <= thousands,
    ensures
        str_views(r@) == words_of(keys_scale(num as int, thousands as int)),
{
    let g = num / thousands % 1_000;
    if g == 0 {
        let v: Strvec = Vec::new();
        proof {
            assert(str_views(v@) =~= words_of(keys_scale(num as int, thousands as int)));
        }
        v
    } else {
        let r = concat_words(one_to_999(g), lookup(thousands));
        proof {
            let th = thousands as int;
            let grp = keys_group(g as int);
            lemma_words_of_concat(grp, seq![th]);
            assert(grp + seq![th] =~= grp.push(th));
            assert(str_views(r@) == words_of(grp + seq![th]));
        }
        r
    }
}

/// The words of a whole 0..=999 group, "and" included.
fn one_to_999(num: u64) -> (r: Strvec)
    ensures
        str_views(r@) == words_of(keys_group(num as int)),
{
    let r = concat_and(hundreds(num), tens_and_units(num));
    proof {
        let kh = keys_hundreds(num as int);
        let tu = keys_tens_and_units(num as int);
        lemma_words_of_concat(kh, seq![and_key()]);
        lemma_words_of_concat(kh + seq![and_key()], tu);
        lemma_word_and();
        assert(words_of(seq![and_key()]) =~= seq!["and"@]);
        assert(str_views(r@) == words_of(crate::words::and_join(kh, tu)));
    }
    r
}

/// Concatenates two word vectors, separated by "and" when both are
/// non-empty.
fn concat_and(v1: Strvec, v2: Strvec) -> (r: Strvec)
    ensures
        str_views(r@) == (if v2@.len() == 0 {
            str_views(v1@)
        } else if v1@.len() == 0 {
            str_views(v2@)
        } else {
            str_views(v1@) + seq!["and"@] + str_views(v2@)
        }),
{
    if v2.len() == 0 {
        v1
    } else if v1.len() == 0 {
        v2
    } else {
        let ghost s1 = v1@;
        let mut r = v1;
        let ghost rp = r@;
        r.push("and");
        proof {
            crate::words::lemma_str_views_push(rp, "and");
        }
        let r = concat_words(r, v2);
        proof {
            assert(str_views(r@) =~= str_views(s1) + seq!["and"@] + str_views(v2@));
        }
        r
    }
}

/// Appends the second vector's words after the first's.
fn concat_words(a: Strvec, b: Strvec) -> (r: Strvec)
    ensures
        str_views(r@) == str_views(a@) + str_views(b@),
{
    let mut r = a;
    let mut i: usize = 0;
    proof {
        assert(b@.take(0) =~= Seq::<&'static str>::empty());
        assert(str_views(r@) =~= str_views(r@) + str_views(b@.take(0)));
    }
    while i < b.len()
        invariant
            i <= b.len(),
            str_views(r@) == str_views(a@) + str_views(b@.take(i as int)),
        decreases b.len() - i,
    {
        let w = b[i];
        let ghost rp = r@;
        r.push(w);
        proof {
            crate::words::lemma_str_views_push(rp, w);
            assert(b@.take(i as int + 1) =~= b@.take(i as int).push(b@[i as int]));
            assert(str_views(b@.take(i as int + 1)) =~= str_views(b@.take(i as int)).push(
                b@[i as int]@,
            ));
            assert(str_views(r@) =~= str_views(a@) + str_views(b@.take(i as int + 1)));
        }
        i += 1;
    }
    proof {
        assert(b@.take(b@.len() as int) =~= b@);
    }
    r
}

/// Builds the words by rendering each part to its own `String` and
/// joining the non-empty pieces with the separator each seam asks for.
pub fn shortscale_string_join(num: u64) -> (r: String)
    ensures
        r@ == spec_shortscale(num as int),
{
    if num <= 20 || num > 999_999_999_999_999_999 {
        let mut s = String::new();
        s.append(map_word(num));
        proof {
            assert(s@ =~= word(num as int));
        }
        return s;
    }
    let ghost n = num as int;
    let ghost k1 = keys_scale(n, 1_000_000_000_000_000);
    let ghost k2 = keys_scale(n, 1_000_000_000_000);
    let ghost k3 = keys_scale(n, 1_000_000_000);
    let ghost k4 = keys_scale(n, 1_000_000);
    let ghost k5 = keys_scale(n, 1_000);
    let ghost kh = keys_hundreds(n);
    let ghost tu = keys_tens_and_units(n);
    let mut s = String::new();
    join_words(&mut s, " ", scale_words(num, 1_000_000_000_000_000));  // quadrillions
    proof {
        assert(Seq::<char>::empty() + render(k1) =~= render(k1));
        assert(s@ == render(k1));
    }
    join_words(&mut s, " ", scale_words(num, 1_000_000_000_000));  // trillions
    proof {
        crate::words::lemma_render_join_step(k1, k2);
        assert(s@ == render(k1 + k2));
    }
    join_words(&mut s, " ", scale_words(num, 1_000_000_000));  // billions
    proof {
        crate::words::lemma_render_join_step(k1 + k2, k3);
        assert(s@ == render(k1 + k2 + k3));
    }
    join_words(&mut s, " ", scale_words(num, 1_000_000));  // millions
    proof {
        crate::words::lemma_render_join_step(k1 + k2 + k3, k4);
        assert(s@ == render(k1 + k2 + k3 + k4));
    }
    join_words(&mut s, " ", scale_words(num, 1_000));  // thousands
    proof {
        crate::words::lemma_render_join_step(k1 + k2 + k3 + k4, k5);
        assert(s@ == render(k1 + k2 + k3 + k4 + k5));
    }
    join_words(&mut s, " ", hundreds_words(num));
    let ghost p = k1 + k2 + k3 + k4 + k5 + kh;
    proof {
        crate::words::lemma_render_join_step(k1 + k2 + k3 + k4 + k5, kh);
        assert(s@ == render(p));
    }
    join_words(&mut s, " and ", tens_and_units_words(num));
    proof {
        let aj = crate::words::and_join(p, tu);
        lemma_render_well_spaced(p);
        lemma_render_well_spaced(tu);
        crate::words::lemma_render_and_join(p, tu);
        assert(s@ == render(aj));
        assert(aj == keys_all(n));
    }
    s
}

/// Appends an already rendered piece: nothing when the piece is empty,
/// the piece alone into an empty buffer, and `sep` between otherwise.
fn join_words(s: &mut String, sep: &str, words: String)
    ensures
        final(s)@ == (if words@.len() == 0 {
            old(s)@
        } else if old(s)@.len() == 0 {
            old(s)@ + words@
        } else {
            old(s)@ + sep@ + words@
        }),
{
    if words.as_str().is_empty() {
    } else if s.as_str().is_empty() {
        s.append(words.as_str());
    } else {
        s.append(sep);
        s.append(words.as_str());
    }
}

/// One atom as an owned `String`: empty for zero, its word otherwise.
fn lookup_word(num: u64) -> (r: String)
    ensures
        r@ == (if num == 0 {
            Seq::<char>::empty()
        } else {
            word(num as int)
        }),
{
    if num == 0 {
        String::new()
    } else {
        map_word(num).to_owned()
    }
}

/// The rendered tens-and-units part of `num`.
fn tens_and_units_words(num: u64) -> (r: String)
    ensures
        r@ == render(keys_tens_and_units(num as int)),
{
    let m = num % 100;
    let tens = m / 10 * 10;
    let units = m % 10;
    if tens == 0 {
        let r = lookup_word(units);
        proof {
            assert(m == units);
            assert(r@ == render(keys_tens_and_units(num as int)));
        }
        r
    } else if tens == 10 {
        let r = lookup_word(m);
        proof {
            assert(r@ == render(keys_tens_and_units(num as int)));
        }
        r
    } else if units == 0 {
        let r = lookup_word(tens);
        proof {
            assert(m == tens);
            assert(r@ == render(keys_tens_and_units(num as int)));
        }
        r
    } else {
        let t = lookup_word(tens);
        let u = lookup_word(units);
        let r = t.concat(" ").concat(u.as_str());
        proof {
            crate::words::lemma_render_push(seq![tens as int], units as int);
            assert(seq![tens as int].push(units as int) =~= keys_tens_and_units(num as int));
        }
        r
    }
}

/// The rendered hundreds part of `num`.
fn hundreds_words(num: u64) -> (r: String)
    ensures
        r@ == render(keys_hundreds(num as int)),
{
    let h = num / 100 % 10;
    if h == 0 {
        lookup_word(h)
    } else {
        let d = lookup_word(h);
        let w = lookup_word(100);
        let r = d.concat(" ").concat(w.as_str());
        proof {
            crate::words::lemma_render_push(seq![h as int], 100);
            assert(seq![h as int].push(100) =~= keys_hundreds(num as int));
        }
        r
    }
}

/// The rendered scale part: the group `num / thousands % 1000` and the
/// scale's word, or the empty string when the group is zero.
fn scale_words(num: u64, thousands: u64) -> (r: String)
    requires
        1 <= thousands,
    ensures
        r@ == render(keys_scale(num as int, thousands as int)),
{
    let g = num / thousands % 1_000;
    if g == 0 {
        lookup_word(g)
    } else {
        let b = one_to_999_words(g);
        let w = lookup_word(thousands);
        let r = b.concat(" ").concat(w.as_str());
        proof {
            let grp = keys_group(g as int);
            assert(grp.len() > 0);
            crate::words::lemma_render_push(grp, thousands as int);
        }
        r
    }
}

/// The rendered whole 0..=999 group, " and " included when both the
/// hundreds and the tens-and-units parts are present.
fn one_to_999_words(num: u64) -> (r: String)
    ensures
        r@ == render(keys_group(num as int)),
{
    let h = hundreds_words(num);
    let t = tens_and_units_words(num);
    proof {
        let kh = keys_hundreds(num as int);
        let tu = keys_tens_and_units(num as int);
        lemma_render_well_spaced(kh);
        lemma_render_well_spaced(tu);
        crate::words::lemma_render_and_join(kh, tu);
    }
    if h.as_str().is_empty() {
        t
    } else if t.as_str().is_empty() {
        h
    } else {
        h.concat(" and ").concat(t.as_str())
    }
}

/// A number wrapped for conversion; rendering it gives the same words
/// as [`crate::shortscale`].
pub struct NumWords {
    n: u64,
}

impl NumWords {
    /// The wrapped number.
    pub closed spec fn value(&self) -> u64 {
        self.n
    }

    /// Wraps `n` for rendering.
    pub fn new(n: u64) -> (r: Self)
        ensures
            r.value() == n,
    {
        NumWords { n }
    }

    /// Writes the words for the wrapped number after what already
    /// stands in `s`.
    #[verifier::rlimit(100)]
    fn display(&self, s: &mut String)
        ensures
            final(s)@ == old(s)@ + spec_shortscale(self.value() as int),
    {
        if self.n <= 20 || self.n > 999_999_999_999_999_999 {
            s.append(map_word(self.n));
            return;
        }
        let ghost n = self.n as int;
        let ghost k1 = keys_scale(n, 1_000_000_000_000_000);
        let ghost k2 = keys_scale(n, 1_000_000_000_000);
        let ghost k3 = keys_scale(n, 1_000_000_000);
        let ghost k4 = keys_scale(n, 1_000_000);
        let ghost k5 = keys_scale(n, 1_000);
        let ghost kh = keys_hundreds(n);
        let ghost tu = keys_tens_and_units(n);
        let mut len: usize = 0;
        let ghost s0 = s@;
        self.scale(s, &mut len, 1_000_000_000_000_000);  // quadrillions
        proof {
            assert(s@ == s0 + emitted(false, k1));
            assert(len > 0 <==> k1.len() > 0);
        }
        self.scale(s, &mut len, 1_000_000_000_000);  // trillions
        proof {
            lemma_concat_associative(s0, emitted(false, k1), emitted(k1.len() > 0, k2));
            lemma_emitted_concat(false, k1, k2);
            assert(s@ == s0 + emitted(false, k1 + k2));
            assert(len > 0 <==> (k1 + k2).len() > 0);
        }
        self.scale(s, &mut len, 1_000_000_000);  // billions
        proof {
            lemma_concat_associative(
                s0,
                emitted(false, k1 + k2),
                emitted((k1 + k2).len() > 0, k3),
            );
            lemma_emitted_concat(false, k1 + k2, k3);
            assert(s@ == s0 + emitted(false, k1 + k2 + k3));
            assert(len > 0 <==> (k1 + k2 + k3).len() > 0);
        }
        self.scale(s, &mut len, 1_000_000);  // millions
        proof {
            lemma_concat_associative(
                s0,
                emitted(false, k1 + k2 + k3),
                emitted((k1 + k2 + k3).len() > 0, k4),
            );
            lemma_emitted_concat(false, k1 + k2 + k3, k4);
            assert(s@ == s0 + emitted(false, k1 + k2 + k3 + k4));
            assert(len > 0 <==> (k1 + k2 + k3 + k4).len() > 0);
        }
        self.scale(s, &mut len, 1_000);  // thousands
        proof {
            lemma_concat_associative(
                s0,
                emitted(false, k1 + k2 + k3 + k4),
                emitted((k1 + k2 + k3 + k4).len() > 0, k5),
            );
            lemma_emitted_concat(false, k1 + k2 + k3 + k4, k5);
            assert(s@ == s0 + emitted(false, k1 + k2 + k3 + k4 + k5));
            assert(len > 0 <==> (k1 + k2 + k3 + k4 + k5).len() > 0);
        }
        self.hundreds(s, self.n, &mut len);
        let ghost p = k1 + k2 + k3 + k4 + k5 + kh;
        proof {
            lemma_concat_associative(
                s0,
                emitted(false, k1 + k2 + k3 + k4 + k5),
                emitted((k1 + k2 + k3 + k4 + k5).len() > 0, kh),
            );
            lemma_emitted_concat(false, k1 + k2 + k3 + k4 + k5, kh);
            assert(s@ == s0 + emitted(false, p));
            assert(len > 0 <==> p.len() > 0);
        }
        let and_word: bool = len > 0;
        self.tens_and_units(s, self.n, and_word, &mut len);
        proof {
            let ks_last = if and_word && tu.len() > 0 {
                seq![and_key()] + tu
            } else {
                tu
            };
            lemma_concat_associative(s0, emitted(false, p), emitted(p.len() > 0, ks_last));
            lemma_emitted_concat(false, p, ks_last);
            assert(s@ == s0 + emitted(false, p + ks_last));
            if tu.len() == 0 {
                assert(p + ks_last =~= p);
                assert(keys_all(n) == p);
            } else if p.len() == 0 {
                assert(p + ks_last =~= tu);
                assert(keys_all(n) == tu);
            } else {
                lemma_concat_associative(p, seq![and_key()], tu);
                assert(p + ks_last == keys_all(n));
            }
            assert(s@ == s0 + emitted(false, keys_all(n)));
            assert(emitted(false, keys_all(n)) == render(keys_all(n)));
        }
    }

    /// Writes the tens-and-units part of `num`, preceded by "and" when
    /// `and_word` asks for it and the part is non-empty.
    #[verifier::rlimit(60)]
    fn tens_and_units(&self, s: &mut String, num: u64, and_word: bool, len: &mut usize)
        ensures
            ({
                let tu = keys_tens_and_units(num as int);
                let ks = if and_word && tu.len() > 0 {
                    seq![and_key()] + tu
                } else {
                    tu
                };
                &&& final(s)@ == old(s)@ + emitted(*old(len) > 0, ks)
                &&& *final(len) == (if tu.len() == 0 {
                    *old(len) as int
                } else {
                    1int
                })
            }),
    {
        let m = num % 100;
        if m == 0 {
            proof {
                assert(s@ + emitted(*len > 0, keys_tens_and_units(num as int)) =~= s@);
            }
            return;
        }
        let ghost st0 = *len > 0;
        let ghost s0 = s@;
        if and_word {
            self.write_word(s, "and", len);
        }
        if m <= 20 {
            self.write_word(s, map_word(m), len);
        } else {
            self.write_word(s, map_word(m / 10 * 10), len);
            let u = m % 10;
            if u != 0 {
                self.write_word(s, map_word(u), len);
            }
        }
        proof {
            let tu = keys_tens_and_units(num as int);
            let mi = m as int;
            if m % 10 == 0 || m <= 20 {
                assert(tu =~= seq![mi]);
                assert(m > 20 ==> mi / 10 * 10 == mi);
                assert(render(tu) == word(mi));
            } else {
                assert(tu =~= seq![mi / 10 * 10, mi % 10]);
                lemma_render_push(seq![mi / 10 * 10], mi % 10);
                assert(seq![mi / 10 * 10].push(mi % 10) =~= tu);
                assert(render(tu) == word(mi / 10 * 10) + " "@ + word(mi % 10));
            }
            if and_word {
                let ks = seq![and_key()] + tu;
                lemma_render_concat(seq![and_key()], tu);
                assert(render(seq![and_key()]) == word(and_key()));
                lemma_word_and();
                assert(render(ks) == "and"@ + " "@ + render(tu));
                assert(s@ =~= s0 + emitted(st0, ks));
            } else {
                assert(s@ =~= s0 + emitted(st0, tu));
            }
        }
    }

    /// Writes the hundreds part of `num`: its hundreds digit followed
    /// by the word "hundred", or nothing when that digit is zero.
    fn hundreds(&self, s: &mut String, num: u64, len: &mut usize)
        ensures
            final(s)@ == old(s)@ + emitted(*old(len) > 0, keys_hundreds(num as int)),
            *final(len) == (if keys_hundreds(num as int).len() == 0 {
                *old(len) as int
            } else {
                1int
            }),
    {
        let h = num / 100 % 10;
        if h == 0 {
            proof {
                assert(s@ + emitted(*len > 0, keys_hundreds(num as int)) =~= s@);
            }
            return;
        }
        let ghost st0 = *len > 0;
        let ghost s0 = s@;
        self.write_word(s, map_word(h), len);
        self.write_word(s, map_word(100), len);
        proof {
            let kh = keys_hundreds(num as int);
            lemma_render_push(seq![h as int], 100);
            assert(seq![h as int].push(100) =~= kh);
            assert(s@ =~= s0 + emitted(st0, kh));
        }
    }

    /// Writes the group of the wrapped number at the scale `thousands`
    /// followed by the scale's own word, or nothing when it is zero.
    fn scale(&self, s: &mut String, len: &mut usize, thousands: u64)
        requires
            1 <= thousands,
        ensures
            final(s)@ == old(s)@ + emitted(
                *old(len) > 0,
                keys_scale(self.value() as int, thousands as int),
            ),
            *final(len) == (if keys_scale(self.value() as int, thousands as int).len() == 0 {
                *old(len) as int
            } else {
                1int
            }),
    {
        let g = self.n / thousands % 1_000;
        if g == 0 {
            proof {
                assert(s@ + emitted(*len > 0, keys_scale(self.n as int, thousands as int)) =~= s@);
            }
            return;
        }
        let ghost st0 = *len > 0;
        let ghost s0 = s@;
        self.hundreds(s, g, len);
        let and_word: bool = (g / 100 % 10) > 0;
        self.tens_and_units(s, g, and_word, len);
        self.write_word(s, map_word(thousands), len);
        proof {
            let th = thousands as int;
            let gi = g as int;
            let kh = keys_hundreds(gi);
            let tu = keys_tens_and_units(gi);
            let ks2 = if and_word && tu.len() > 0 {
                seq![and_key()] + tu
            } else {
                tu
            };
            let grp = keys_group(gi);
            assert(and_word <==> kh.len() > 0);
            assert(kh + ks2 =~= grp);
            assert(grp.len() > 0);
            lemma_emitted_concat(st0, kh, ks2);
            assert(emitted(st0, kh) + emitted(st0 || kh.len() > 0, ks2) == emitted(st0, grp));
            assert(s@ =~= s0 + emitted(st0, grp) + " "@ + word(th));
            lemma_render_push(grp, th);
            assert(keys_scale(self.n as int, th) == grp.push(th));
            assert(emitted(st0, grp.push(th)) =~= emitted(st0, grp) + " "@ + word(th));
            assert(s@ =~= s0 + emitted(st0, keys_scale(self.n as int, th)));
        }
    }

    /// Writes one word, preceded by a space when this rendering has
    /// already written a word.
    fn write_word(&self, s: &mut String, w: &str, len: &mut usize)
        ensures
            final(s)@ == old(s)@ + (if *old(len) > 0 {
                " "@
            } else {
                Seq::<char>::empty()
            }) + w@,
            *final(len) == 1,
    {
        if *len > 0 {
            s.append(" ");
        }
        s.append(w);
        *len = 1;
    }

    /// The words for the wrapped number as an owned `String`.
    pub fn to_string(&self) -> (r: String)
        ensures
            r@ == spec_shortscale(self.value() as int),
    {
        let mut s = String::new();
        self.display(&mut s);
        proof {
            assert(s@ =~= spec_shortscale(self.value() as int));
        }
        s
    }
}

/// Renders through [`NumWords`] into a fresh `String`.
pub fn shortscale_display(num: u64) -> (r: String)
    ensures
        r@ == spec_shortscale(num as int),
{
    NumWords::new(num).to_string()
}

/// Appends the words of the scale group `num / thousands % 1000`
/// followed by the scale's own word, or nothing when that group is zero.
fn push_scale(s: &mut String, num: u64, thousands: u64)
    requires
        1 <= thousands,
    ensures
        final(s)@ == old(s)@ + emitted(old(s)@.len() > 0, keys_scale(num as int, thousands as int)),
{
    let g = num / thousands % 1_000;
    if g == 0 {
        proof {
            assert(s@ + emitted(s@.len() > 0, keys_scale(num as int, thousands as int)) =~= s@);
        }
        return;
    }
    let ghost st0 = s@.len() > 0;
    let ghost s0 = s@;
    push_hundreds(s, g);
    let ghost st1 = s@.len() > 0;
    proof {
        lemma_render_well_spaced(keys_hundreds(g as int));
        assert(st1 == (st0 || keys_hundreds(g as int).len() > 0));
    }
    let and_word: bool = (g / 100 % 10) > 0;
    push_tens_and_units(s, g, and_word);
    let ghost st2 = s@.len() > 0;
    push_word(s, map_word(thousands));
    proof {
        let th = thousands as int;
        let gi = g as int;
        let kh = keys_hundreds(gi);
        let tu = keys_tens_and_units(gi);
        let ks2 = if and_word && tu.len() > 0 {
            seq![and_key()] + tu
        } else {
            tu
        };
        let grp = keys_group(gi);
        assert(and_word <==> kh.len() > 0);
        assert(kh + ks2 =~= grp);
        assert(grp.len() > 0);
        lemma_emitted_concat(st0, kh, ks2);
        assert(emitted(st0, kh) + emitted(st0 || kh.len() > 0, ks2) == emitted(st0, grp));
        lemma_render_well_spaced(grp);
        assert(st2);
        assert(s@ =~= s0 + emitted(st0, grp) + " "@ + word(th));
        lemma_render_push(grp, th);
        assert(keys_scale(num as int, th) == grp.push(th));
        assert(emitted(st0, grp.push(th)) =~= emitted(st0, grp) + " "@ + word(th));
        assert(s@ =~= s0 + emitted(st0, keys_scale(num as int, th)));
    }
}

} // verus!
