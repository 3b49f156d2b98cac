//! The word table and the mathematical model of the output.
//!
//! A phrase is modelled as a sequence of atom keys (`Seq<int>`): each key is
//! either a numeric atom of the table (0..=20, the multiples of ten up to 90,
//! 100, and the five scale magnitudes) or `and_key()`, which stands for the
//! separator word "and". `render` turns a key sequence into the final text,
//! joining the words with single spaces.

use vstd::prelude::*;

verus! {

/// Largest value with a grammatical decomposition; anything above it
/// renders as the sentinel word.
pub const MAX_SHORTSCALE: u64 = 999_999_999_999_999_999;

/// Key standing for the separator word "and" in a key sequence.
/// It is negative so that it can never collide with a numeric atom.
pub open spec fn and_key() -> int {
    -1
}

/// The word table: the spelling of each atom key.
/// Keys outside the table map to the sentinel.
#[verifier::opaque]
pub open spec fn word(n: int) -> Seq<char> {
    if n == and_key() {
        "and"@
    } else if n == 0 {
        "zero"@
    } else if n == 1 {
        "one"@
    } else if n == 2 {
        "two"@
    } else if n == 3 {
        "three"@
    } else if n == 4 {
        "four"@
    } else if n == 5 {
        "five"@
    } else if n == 6 {
        "six"@
    } else if n == 7 {
        "seven"@
    } else if n == 8 {
        "eight"@
    } else if n == 9 {
        "nine"@
    } else if n == 10 {
        "ten"@
    } else if n == 11 {
        "eleven"@
    } else if n == 12 {
        "twelve"@
    } else if n == 13 {
        "thirteen"@
    } else if n == 14 {
        "fourteen"@
    } else if n == 15 {
        "fifteen"@
    } else if n == 16 {
        "sixteen"@
    } else if n == 17 {
        "seventeen"@
    } else if n == 18 {
        "eighteen"@
    } else if n == 19 {
        "nineteen"@
    } else if n == 20 {
        "twenty"@
    } else if n == 30 {
        "thirty"@
    } else if n == 40 {
        "forty"@
    } else if n == 50 {
        "fifty"@
    } else if n == 60 {
        "sixty"@
    } else if n == 70 {
        "seventy"@
    } else if n == 80 {
        "eighty"@
    } else if n == 90 {
        "ninety"@
    } else if n == 100 {
        "hundred"@
    } else if n == 1_000 {
        "thousand"@
    } else if n == 1_000_000 {
        "million"@
    } else if n == 1_000_000_000 {
        "billion"@
    } else if n == 1_000_000_000_000 {
        "trillion"@
    } else if n == 1_000_000_000_000_000 {
        "quadrillion"@
    } else {
        "(big number)"@
    }
}

/// Keys of the tens-and-units part of `num`, taken from `num % 100`:
/// nothing for zero, a single atom up to twenty, otherwise the multiple
/// of ten followed by the units digit when that digit is non-zero.
pub open spec fn keys_tens_and_units(num: int) -> Seq<int> {
    let n = num % 100;
    if n == 0 {
        Seq::empty()
    } else if n <= 20 {
        seq![n]
    } else if n % 10 == 0 {
        seq![n]
    } else {
        seq![n / 10 * 10, n % 10]
    }
}

/// Keys of the hundreds part of `num`: nothing when the hundreds digit
/// is zero, otherwise the digit followed by the atom for 100.
pub open spec fn keys_hundreds(num: int) -> Seq<int> {
    let h = num / 100 % 10;
    if h == 0 {
        Seq::empty()
    } else {
        seq![h, 100]
    }
}

/// Joins two key sequences, inserting the "and" key exactly when both
/// are non-empty. This is the single rule behind all "and" insertion.
pub open spec fn and_join(a: Seq<int>, b: Seq<int>) -> Seq<int> {
    if a.len() == 0 {
        b
    } else if b.len() == 0 {
        a
    } else {
        a + seq![and_key()] + b
    }
}

/// Keys of one 0..=999 group: hundreds part, then "and", then tens and
/// units, with "and" present only when both parts are.
pub open spec fn keys_group(num: int) -> Seq<int> {
    and_join(keys_hundreds(num), keys_tens_and_units(num))
}

/// Keys contributed by the scale `thousands`: the group value
/// `num / thousands % 1000` rendered as a group and followed by the
/// scale's own atom, or nothing when that group value is zero.
pub open spec fn keys_scale(num: int, thousands: int) -> Seq<int> {
    let g = num / thousands % 1000;
    if g == 0 {
        Seq::empty()
    } else {
        keys_group(g).push(thousands)
    }
}

/// The full key sequence for a supported `num`: the five scale groups in
/// descending order, then the trailing hundreds, joined by "and" with the
/// trailing tens and units exactly when both sides are non-empty.
pub open spec fn keys_all(num: int) -> Seq<int> {
    and_join(
        keys_scale(num, 1_000_000_000_000_000) + keys_scale(num, 1_000_000_000_000) + keys_scale(
            num,
            1_000_000_000,
        ) + keys_scale(num, 1_000_000) + keys_scale(num, 1_000) + keys_hundreds(num),
        keys_tens_and_units(num),
    )
}

/// Renders a key sequence as text: the words of the atoms, separated by
/// single spaces.
pub open spec fn render(ks: Seq<int>) -> Seq<char>
    decreases ks.len(),
{
    if ks.len() == 0 {
        Seq::empty()
    } else if ks.len() == 1 {
        word(ks[0])
    } else {
        render(ks.drop_last()) + " "@ + word(ks.last())
    }
}

/// What a rendering step appends to a buffer: nothing for an empty key
/// sequence, and otherwise the rendered words, preceded by one space
/// when words already stand in the buffer (`started`).
pub open spec fn emitted(started: bool, ks: Seq<int>) -> Seq<char> {
    if ks.len() == 0 {
        Seq::empty()
    } else if started {
        " "@ + render(ks)
    } else {
        render(ks)
    }
}

/// The meaning of the whole conversion: values at most twenty and values
/// above the maximum are a single table lookup; everything else is the
/// rendering of its full key sequence.
pub open spec fn spec_shortscale(num: int) -> Seq<char> {
    if num <= 20 || num > MAX_SHORTSCALE {
        word(num)
    } else {
        render(keys_all(num))
    }
}

/// The separator word that `and_key` stands for.
pub proof fn lemma_word_and()
    ensures
        word(and_key()) == "and"@,
{
    reveal(word);
}

/// Word lookup for the atoms of the table; values outside the table
/// give the sentinel spelling.
pub(crate) fn map_word(num: u64) -> (r: &'static str)
    ensures
        r@ == word(num as int),
{
    proof {
        reveal(word);
    }
    match num {
        0 => "zero",
        1 => "one",
        2 => "two",
        3 => "three",
        4 => "four",
        5 => "five",
        6 => "six",
        7 => "seven",
        8 => "eight",
        9 => "nine",
        10 => "ten",
        11 => "eleven",
        12 => "twelve",
        13 => "thirteen",
        14 => "fourteen",
        15 => "fifteen",
        16 => "sixteen",
        17 => "seventeen",
        18 => "eighteen",
        19 => "nineteen",
        20 => "twenty",
        30 => "thirty",
        40 => "forty",
        50 => "fifty",
        60 => "sixty",
        70 => "seventy",
        80 => "eighty",
        90 => "ninety",
        100 => "hundred",
        1_000 => "thousand",
        1_000_000 => "million",
        1_000_000_000 => "billion",
        1_000_000_000_000 => "trillion",
        1_000_000_000_000_000 => "quadrillion",
        _ => "(big number)",
    }
}

/// Appending one key renders as the old text, a space, and the new word.
pub proof fn lemma_render_push(ks: Seq<int>, k: int)
    requires
        ks.len() > 0,
    ensures
        render(ks.push(k)) == render(ks) + " "@ + word(k),
{
    assert(ks.push(k).drop_last() =~= ks);
    assert(ks.push(k).last() == k);
}

/// Rendering distributes over concatenation of non-empty key sequences,
/// with a single space at the seam.
pub proof fn lemma_render_concat(a: Seq<int>, b: Seq<int>)
    requires
        a.len() > 0,
        b.len() > 0,
    ensures
        render(a + b) == render(a) + " "@ + render(b),
    decreases b.len(),
{
    if b.len() == 1 {
        assert((a + b).drop_last() =~= a);
        assert((a + b).last() == b[0]);
        assert(render(b) == word(b[0]));
        assert(render(a + b) =~= render(a) + " "@ + render(b));
    } else {
        lemma_render_concat(a, b.drop_last());
        assert((a + b).drop_last() =~= a + b.drop_last());
        assert((a + b).last() == b.last());
        assert(render(a + b) =~= render(a) + " "@ + render(b));
    }
}

/// Two successive emissions into one buffer amount to a single emission
/// of the concatenated keys, provided the `started` flag of the second
/// says whether the first left any words behind.
pub proof fn lemma_emitted_concat(started: bool, a: Seq<int>, b: Seq<int>)
    ensures
        emitted(started, a) + emitted(started || a.len() > 0, b) == emitted(started, a + b),
{
    if a.len() == 0 {
        assert(a + b =~= b);
        assert(emitted(started, a) + emitted(started, b) =~= emitted(started, b));
    } else if b.len() == 0 {
        assert(a + b =~= a);
        assert(emitted(started, a) + emitted(true, b) =~= emitted(started, a));
    } else {
        lemma_render_concat(a, b);
        assert(emitted(started, a) + emitted(true, b) =~= emitted(started, a + b));
    }
}

/// The texts of a sequence of string slices.
pub open spec fn str_views<'a>(vs: Seq<&'a str>) -> Seq<Seq<char>> {
    vs.map_values(|w: &'a str| w@)
}

/// The spellings of a key sequence, word by word.
pub open spec fn words_of(ks: Seq<int>) -> Seq<Seq<char>> {
    ks.map_values(|k: int| word(k))
}

/// Joins a sequence of words with single spaces.
pub open spec fn render_words(ws: Seq<Seq<char>>) -> Seq<char>
    decreases ws.len(),
{
    if ws.len() == 0 {
        Seq::empty()
    } else if ws.len() == 1 {
        ws[0]
    } else {
        render_words(ws.drop_last()) + " "@ + ws.last()
    }
}

/// Spelling a key sequence and joining the words is the same as
/// rendering the keys.
pub proof fn lemma_render_words_of(ks: Seq<int>)
    ensures
        render_words(words_of(ks)) == render(ks),
    decreases ks.len(),
{
    if ks.len() == 0 {
    } else if ks.len() == 1 {
        assert(words_of(ks) =~= seq![word(ks[0])]);
    } else {
        lemma_render_words_of(ks.drop_last());
        assert(words_of(ks).drop_last() =~= words_of(ks.drop_last()));
        assert(words_of(ks).last() == word(ks.last()));
    }
}

/// Spelling distributes over concatenation of key sequences.
pub proof fn lemma_words_of_concat(a: Seq<int>, b: Seq<int>)
    ensures
        words_of(a + b) == words_of(a) + words_of(b),
{
    assert(words_of(a + b) =~= words_of(a) + words_of(b));
}

/// Pushing a slice adds exactly its text to the views.
pub proof fn lemma_str_views_push<'a>(vs: Seq<&'a str>, w: &'a str)
    ensures
        str_views(vs.push(w)) == str_views(vs).push(w@),
{
    assert(str_views(vs.push(w)) =~= str_views(vs).push(w@));
}

/// Appending one word joins as the old text, a space, and that word.
pub proof fn lemma_render_words_push(ws: Seq<Seq<char>>, w: Seq<char>)
    requires
        ws.len() > 0,
    ensures
        render_words(ws.push(w)) == render_words(ws) + " "@ + w,
{
    assert(ws.push(w).drop_last() =~= ws);
    assert(ws.push(w).last() == w);
}

/// Joining a rendered piece onto rendered text with a single space is
/// the same as rendering the concatenated keys, empty sides skipped.
pub proof fn lemma_render_join_step(acc: Seq<int>, ks: Seq<int>)
    ensures
        (if render(ks).len() == 0 {
            render(acc)
        } else if render(acc).len() == 0 {
            render(acc) + render(ks)
        } else {
            render(acc) + " "@ + render(ks)
        }) == render(acc + ks),
{
    lemma_render_well_spaced(acc);
    lemma_render_well_spaced(ks);
    if ks.len() == 0 {
        assert(acc + ks =~= acc);
    } else if acc.len() == 0 {
        assert(acc + ks =~= ks);
        assert(render(acc) + render(ks) =~= render(ks));
    } else {
        lemma_render_concat(acc, ks);
    }
}

/// Rendering an and-joined pair puts the text " and " between two
/// non-empty sides and collapses to the other side otherwise.
pub proof fn lemma_render_and_join(a: Seq<int>, b: Seq<int>)
    ensures
        render(and_join(a, b)) == (if b.len() == 0 {
            render(a)
        } else if a.len() == 0 {
            render(b)
        } else {
            render(a) + " and "@ + render(b)
        }),
{
    if a.len() > 0 && b.len() > 0 {
        lemma_render_concat(seq![and_key()], b);
        lemma_render_concat(a, seq![and_key()] + b);
        vstd::seq_lib::lemma_concat_associative(a, seq![and_key()], b);
        lemma_word_and();
        reveal_strlit(" and ");
        reveal_strlit("and");
        reveal_strlit(" ");
        assert(" and "@ =~= " "@ + "and"@ + " "@);
        assert(render(and_join(a, b)) =~= render(a) + " and "@ + render(b));
    }
}

/// How often the key `k` occurs in a key sequence.
pub open spec fn count_key(ks: Seq<int>, k: int) -> int
    decreases ks.len(),
{
    if ks.len() == 0 {
        0
    } else {
        count_key(ks.drop_last(), k) + (if ks.last() == k {
            1int
        } else {
            0int
        })
    }
}

/// Occurrence counts add up over concatenation.
pub proof fn lemma_count_key_concat(a: Seq<int>, b: Seq<int>, k: int)
    ensures
        count_key(a + b, k) == count_key(a, k) + count_key(b, k),
    decreases b.len(),
{
    if b.len() == 0 {
        assert(a + b =~= a);
    } else {
        lemma_count_key_concat(a, b.drop_last(), k);
        assert((a + b).drop_last() =~= a + b.drop_last());
        assert((a + b).last() == b.last());
    }
}

/// A key that occurs nowhere counts zero.
pub proof fn lemma_count_key_absent(ks: Seq<int>, k: int)
    requires
        forall|i: int| 0 <= i < ks.len() ==> ks[i] != k,
    ensures
        count_key(ks, k) == 0,
    decreases ks.len(),
{
    if ks.len() > 0 {
        lemma_count_key_absent(ks.drop_last(), k);
    }
}

/// One of the five scale magnitudes.
pub open spec fn is_scale(thousands: int) -> bool {
    ||| thousands == 1_000
    ||| thousands == 1_000_000
    ||| thousands == 1_000_000_000
    ||| thousands == 1_000_000_000_000
    ||| thousands == 1_000_000_000_000_000
}

/// Every key of a group rendering is an atom below 1000 or the "and"
/// key, so no scale word can come out of a group.
pub proof fn lemma_group_keys_below(g: int)
    ensures
        forall|i: int| 0 <= i < keys_group(g).len() ==> keys_group(g)[i] < 1000,
{
    let kh = keys_hundreds(g);
    let tu = keys_tens_and_units(g);
    assert(forall|i: int| 0 <= i < kh.len() ==> kh[i] < 1000);
    assert(g % 100 / 10 * 10 < 100);
    assert(forall|i: int| 0 <= i < tu.len() ==> tu[i] < 1000);
}

/// Every scale word stands in the output exactly once when its group
/// value is non-zero, and not at all when that group value is zero:
/// the key sequence behind the output mentions the scale's atom
/// `if group == 0 { 0 } else { 1 }` times.
pub proof fn lemma_scale_word_once(n: int, thousands: int)
    requires
        20 < n <= MAX_SHORTSCALE,
        is_scale(thousands),
    ensures
        count_key(keys_all(n), thousands) == (if n / thousands % 1000 == 0 {
            0int
        } else {
            1int
        }),
{
    let k1 = keys_scale(n, 1_000_000_000_000_000);
    let k2 = keys_scale(n, 1_000_000_000_000);
    let k3 = keys_scale(n, 1_000_000_000);
    let k4 = keys_scale(n, 1_000_000);
    let k5 = keys_scale(n, 1_000);
    let kh = keys_hundreds(n);
    let tu = keys_tens_and_units(n);
    let p = k1 + k2 + k3 + k4 + k5 + kh;
    lemma_count_scale_part(n, 1_000_000_000_000_000, thousands);
    lemma_count_scale_part(n, 1_000_000_000_000, thousands);
    lemma_count_scale_part(n, 1_000_000_000, thousands);
    lemma_count_scale_part(n, 1_000_000, thousands);
    lemma_count_scale_part(n, 1_000, thousands);
    assert(forall|i: int| 0 <= i < kh.len() ==> kh[i] != thousands);
    lemma_count_key_absent(kh, thousands);
    assert(n % 100 / 10 * 10 < 100);
    assert(forall|i: int| 0 <= i < tu.len() ==> tu[i] != thousands);
    lemma_count_key_absent(tu, thousands);
    lemma_count_key_concat(k1, k2, thousands);
    lemma_count_key_concat(k1 + k2, k3, thousands);
    lemma_count_key_concat(k1 + k2 + k3, k4, thousands);
    lemma_count_key_concat(k1 + k2 + k3 + k4, k5, thousands);
    lemma_count_key_concat(k1 + k2 + k3 + k4 + k5, kh, thousands);
    if p.len() == 0 || tu.len() == 0 {
        lemma_count_key_concat(p, tu, thousands);
        if tu.len() == 0 {
            assert(p + tu =~= p);
        }
        if p.len() == 0 {
            assert(p + tu =~= tu);
        }
    } else {
        lemma_count_key_concat(p, seq![and_key()], thousands);
        lemma_count_key_concat(p + seq![and_key()], tu, thousands);
        lemma_count_key_absent(seq![and_key()], thousands);
        assert(keys_all(n) == p + seq![and_key()] + tu);
    }
}

/// Text with no leading, no trailing, and no doubled space.
pub open spec fn well_spaced(s: Seq<char>) -> bool {
    &&& (s.len() > 0 ==> s[0] != ' ' && s[s.len() - 1] != ' ')
    &&& (forall|i: int| 0 <= i < s.len() - 1 ==> !(#[trigger] s[i] == ' ' && s[i + 1] == ' '))
}

/// Every table word is non-empty and well spaced (the sentinel holds
/// one interior space and nothing more).
pub proof fn lemma_word_well_spaced(n: int)
    ensures
        word(n).len() > 0,
        well_spaced(word(n)),
{
    reveal(word);
    reveal_strlit("and");
    reveal_strlit("zero");
    reveal_strlit("one");
    reveal_strlit("two");
    reveal_strlit("three");
    reveal_strlit("four");
    reveal_strlit("five");
    reveal_strlit("six");
    reveal_strlit("seven");
    reveal_strlit("eight");
    reveal_strlit("nine");
    reveal_strlit("ten");
    reveal_strlit("eleven");
    reveal_strlit("twelve");
    reveal_strlit("thirteen");
    reveal_strlit("fourteen");
    reveal_strlit("fifteen");
    reveal_strlit("sixteen");
    reveal_strlit("seventeen");
    reveal_strlit("eighteen");
    reveal_strlit("nineteen");
    reveal_strlit("twenty");
    reveal_strlit("thirty");
    reveal_strlit("forty");
    reveal_strlit("fifty");
    reveal_strlit("sixty");
    reveal_strlit("seventy");
    reveal_strlit("eighty");
    reveal_strlit("ninety");
    reveal_strlit("hundred");
    reveal_strlit("thousand");
    reveal_strlit("million");
    reveal_strlit("billion");
    reveal_strlit("trillion");
    reveal_strlit("quadrillion");
    reveal_strlit("(big number)");
}

/// A rendering is well spaced, and non-empty whenever its key sequence is.
pub proof fn lemma_render_well_spaced(ks: Seq<int>)
    ensures
        well_spaced(render(ks)),
        ks.len() > 0 ==> render(ks).len() > 0,
    decreases ks.len(),
{
    if ks.len() == 0 {
    } else if ks.len() == 1 {
        lemma_word_well_spaced(ks[0]);
    } else {
        lemma_render_well_spaced(ks.drop_last());
        lemma_word_well_spaced(ks.last());
        reveal_strlit(" ");
        let a = render(ks.drop_last());
        let w = word(ks.last());
        assert((" "@).len() == 1 && (" "@)[0] == ' ');
        assert(well_spaced(render(ks)));
    }
}

/// Every value up to twenty renders as its single atom word.
pub proof fn lemma_atoms_up_to_twenty(n: int)
    requires
        0 <= n <= 20,
    ensures
        spec_shortscale(n) == word(n),
{
}

/// Every value above the supported maximum renders as the sentinel.
pub proof fn lemma_sentinel_above_max(n: int)
    requires
        n > MAX_SHORTSCALE,
    ensures
        spec_shortscale(n) == "(big number)"@,
{
    reveal(word);
}

/// No output carries a leading, trailing, or doubled space.
pub proof fn lemma_output_well_spaced(n: int)
    ensures
        well_spaced(spec_shortscale(n)),
{
    if n <= 20 || n > MAX_SHORTSCALE {
        lemma_word_well_spaced(n);
    } else {
        lemma_render_well_spaced(keys_all(n));
    }
}

/// The contribution of the scale `at` to the count of the scale word
/// for `thousands`: one when the two scales agree and the group is
/// populated, zero otherwise.
proof fn lemma_count_scale_part(n: int, at: int, thousands: int)
    requires
        is_scale(at),
        is_scale(thousands),
    ensures
        count_key(keys_scale(n, at), thousands) == (if at == thousands && n / at % 1000 != 0 {
            1int
        } else {
            0int
        }),
{
    let g = n / at % 1000;
    if g == 0 {
    } else {
        let grp = keys_group(g);
        lemma_group_keys_below(g);
        lemma_count_key_absent(grp, thousands);
        assert(grp.push(at).drop_last() =~= grp);
        assert(grp.push(at).last() == at);
    }
}

} // verus!
