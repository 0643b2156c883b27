//! What the operations on text undo, keep and find.
use crate::text::{
    all_digits, below, bytes_below, dec, dec_nat, digit_char, digits_value, has_prefix, is_digit,
    is_space_char, joined, lower, parsed_u64, replaced, split_of, strip_prefix_of, trim_end_of,
    trimmed, trimmed_end, trimmed_start, without,
};
use vstd::prelude::*;
use vstd::utf8::encode_utf8;

verus! {

/// The pieces of a text, put together with the separator, are the text; and no
/// piece has the separator in it.
pub proof fn law_pieces_make_the_text(s: Seq<char>, c: char)
    ensures
        joined(split_of(s, c), seq![c]) == s,
        split_of(s, c).len() > 0,
        forall|i: int| 0 <= i < split_of(s, c).len() ==> !(#[trigger] split_of(s, c)[i]).contains(c),
    decreases s.len(),
{
    let p = split_of(s, c);
    if s.len() == 0 {
        assert(p =~= seq![Seq::<char>::empty()]);
        assert(p[0] =~= s);
    } else {
        let h = split_of(s.drop_last(), c);
        law_pieces_make_the_text(s.drop_last(), c);
        assert(s =~= s.drop_last().push(s.last()));
        if s.last() == c {
            assert(p.drop_last() =~= h);
            assert(joined(p, seq![c]) =~= s);
            assert forall|i: int| 0 <= i < p.len() implies !(#[trigger] p[i]).contains(c) by {
                if i < h.len() {
                    assert(p[i] == h[i]);
                }
            }
        } else {
            let l = h.last().push(s.last());
            assert(p.drop_last() =~= h.drop_last());
            assert(h[h.len() - 1] == h.last());
            if h.len() == 1 {
                assert(joined(h, seq![c]) == h[0]);
                assert(joined(p, seq![c]) =~= s);
            } else {
                assert(joined(p, seq![c]) =~= joined(h, seq![c]).push(s.last()));
            }
            assert forall|i: int| 0 <= i < p.len() implies !(#[trigger] p[i]).contains(c) by {
                if i < h.len() - 1 {
                    assert(p[i] == h[i]);
                } else {
                    assert(p[i] == l);
                    if l.contains(c) {
                        let k = choose|k: int| 0 <= k < l.len() && l[k] == c;
                        assert(h.last()[k] == c);
                    }
                }
            }
        }
    }
}

proof fn lemma_digit(d: nat)
    requires
        d < 10,
    ensures
        is_digit(digit_char(d)),
        digit_char(d) as u32 - '0' as u32 == d,
{
}

proof fn lemma_digits(n: nat)
    ensures
        all_digits(dec_nat(n)),
        digits_value(dec_nat(n)) == n,
        dec_nat(n).len() > 0,
    decreases n,
{
    lemma_digit(n % 10);
    if n < 10 {
        assert(dec_nat(n).drop_last() =~= Seq::<char>::empty());
        reveal_with_fuel(digits_value, 2);
    } else {
        lemma_digits(n / 10);
        let h = dec_nat(n / 10);
        assert(dec_nat(n).drop_last() =~= h);
        assert forall|i: int| 0 <= i < dec_nat(n).len() implies is_digit(
            #[trigger] dec_nat(n)[i],
        ) by {
            if i < h.len() {
                assert(dec_nat(n)[i] == h[i]);
            }
        }
    }
}

/// A number that is written is read back as it was.
pub proof fn law_number_reads_back(n: u64)
    ensures
        parsed_u64(dec(n as int)) == Some(n),
        n > 0 ==> dec(-(n as int)) == seq!['-'] + dec(n as int),
{
    lemma_digits(n as nat);
    assert(is_digit(dec(n as int)[0]));
}

/// Of two texts that differ, the one whose first differing byte is smaller comes
/// first; and a text comes before one that it begins.
pub proof fn law_first_difference_orders(p: Seq<u8>, a: Seq<u8>, b: Seq<u8>)
    ensures
        a.len() > 0 && b.len() > 0 && a[0] < b[0] ==> bytes_below(p + a, p + b),
        a.len() == 0 && b.len() > 0 ==> bytes_below(p + a, p + b),
    decreases p.len(),
{
    if p.len() == 0 {
        assert(p + a =~= a);
        assert(p + b =~= b);
    } else {
        law_first_difference_orders(p.skip(1), a, b);
        assert((p + a).skip(1) =~= p.skip(1) + a);
        assert((p + b).skip(1) =~= p.skip(1) + b);
    }
}

/// Texts are ordered as their bytes are.
pub proof fn law_texts_are_ordered_by_bytes(a: Seq<char>, b: Seq<char>)
    ensures
        below(a, b) == bytes_below(encode_utf8(a), encode_utf8(b)),
{
}

proof fn lemma_trim_start(a: Seq<char>, s: Seq<char>)
    requires
        forall|i: int| 0 <= i < a.len() ==> is_space_char(#[trigger] a[i]),
        s.len() > 0 ==> !is_space_char(s[0]),
    ensures
        trimmed_start(a + s) == s,
    decreases a.len(),
{
    if a.len() == 0 {
        assert(a + s =~= s);
    } else {
        assert((a + s).skip(1) =~= a.skip(1) + s);
        assert forall|i: int| 0 <= i < a.skip(1).len() implies is_space_char(
            #[trigger] a.skip(1)[i],
        ) by {
            assert(a.skip(1)[i] == a[i + 1]);
        }
        lemma_trim_start(a.skip(1), s);
    }
}

proof fn lemma_trim_end(s: Seq<char>, b: Seq<char>)
    requires
        forall|i: int| 0 <= i < b.len() ==> is_space_char(#[trigger] b[i]),
        s.len() > 0 ==> !is_space_char(s.last()),
    ensures
        trimmed_end(s + b) == s,
    decreases b.len(),
{
    if b.len() == 0 {
        assert(s + b =~= s);
    } else {
        assert((s + b).drop_last() =~= s + b.drop_last());
        assert((s + b).last() == b[b.len() - 1]);
        assert forall|i: int| 0 <= i < b.drop_last().len() implies is_space_char(
            #[trigger] b.drop_last()[i],
        ) by {
            assert(b.drop_last()[i] == b[i]);
        }
        lemma_trim_end(s, b.drop_last());
    }
}

/// White space at the ends of a text is taken away, and nothing else.
pub proof fn law_trimming_takes_outer_space(a: Seq<char>, s: Seq<char>, b: Seq<char>)
    requires
        forall|i: int| 0 <= i < a.len() ==> is_space_char(#[trigger] a[i]),
        forall|i: int| 0 <= i < b.len() ==> is_space_char(#[trigger] b[i]),
        s.len() > 0,
        !is_space_char(s[0]),
        !is_space_char(s.last()),
    ensures
        trimmed(a + s + b) == s,
{
    assert(a + s + b =~= a + (s + b));
    lemma_trim_start(a, s + b);
    lemma_trim_end(s, b);
}

/// Slashes, or any one character, at the end of a text are taken away, and nothing
/// else.
pub proof fn law_end_is_trimmed(s: Seq<char>, c: char, n: nat)
    requires
        s.len() > 0 ==> s.last() != c,
    ensures
        trim_end_of(s + Seq::new(n, |i: int| c), c) == s,
    decreases n,
{
    let t = Seq::new(n, |i: int| c);
    if n == 0 {
        assert(s + t =~= s);
    } else {
        let m = (n - 1) as nat;
        assert((s + t).drop_last() =~= s + Seq::new(m, |i: int| c));
        law_end_is_trimmed(s, c, m);
    }
}

/// A character that is removed from a text is gone, wherever it stood, and the
/// others stay in order.
pub proof fn law_removed_character_is_gone(a: Seq<char>, b: Seq<char>, c: char)
    ensures
        !without(a, c).contains(c),
        !a.contains(c) ==> without(a, c) == a,
        without(a + b, c) == without(a, c) + without(b, c),
        without(seq![c], c).len() == 0,
    decreases a.len() + b.len(),
{
    assert(seq![c].drop_last() =~= Seq::<char>::empty());
    reveal_with_fuel(without, 2);
    if a.len() > 0 {
        let h = a.drop_last();
        law_removed_character_is_gone(h, Seq::empty(), c);
        if without(a, c).contains(c) {
            let i = choose|i: int| 0 <= i < without(a, c).len() && without(a, c)[i] == c;
            if i < without(h, c).len() {
                assert(without(h, c)[i] == c);
            }
        }
        if !a.contains(c) {
            assert(a[a.len() - 1] == a.last());
            assert(!h.contains(c)) by {
                if h.contains(c) {
                    let i = choose|i: int| 0 <= i < h.len() && h[i] == c;
                    assert(a[i] == c);
                }
            }
            assert(without(a, c) =~= a);
        }
    }
    if b.len() == 0 {
        assert(a + b =~= a);
        assert(without(a, c) + without(b, c) =~= without(a, c));
    } else {
        law_removed_character_is_gone(a, b.drop_last(), c);
        assert((a + b).drop_last() =~= a + b.drop_last());
        assert(without(a + b, c) =~= without(a, c) + without(b, c));
    }
}

/// A text that a word begins is replaced there, and goes on behind the word; one in
/// which the word does not occur stays.
pub proof fn law_word_is_replaced(s: Seq<char>, p: Seq<char>, by: Seq<char>)
    requires
        p.len() > 0,
    ensures
        replaced(p + s, p, by) == by + replaced(s, p, by),
        (forall|i: int| 0 <= i <= s.len() ==> !has_prefix(#[trigger] s.skip(i), p)) ==> replaced(
            s,
            p,
            by,
        ) == s,
    decreases s.len(),
{
    assert((p + s).subrange(0, p.len() as int) =~= p);
    assert((p + s).skip(p.len() as int) =~= s);
    if s.len() > 0 && (forall|i: int| 0 <= i <= s.len() ==> !has_prefix(#[trigger] s.skip(i), p)) {
        let t = s.skip(1);
        assert(s.skip(0) =~= s);
        assert forall|i: int| 0 <= i <= t.len() implies !has_prefix(#[trigger] t.skip(i), p) by {
            assert(t.skip(i) =~= s.skip(i + 1));
        }
        law_word_is_replaced(t, p, by);
        assert(seq![s[0]] + t =~= s);
    }
}

/// A prefix that is stripped leaves what follows it; a text without it has nothing
/// to strip.
pub proof fn law_stripped_prefix_leaves_the_rest(s: Seq<char>, p: Seq<char>, rest: Seq<char>)
    ensures
        strip_prefix_of(s, p) == Some(rest) <==> s == p + rest,
{
    if s == p + rest {
        assert(s.subrange(0, p.len() as int) =~= p);
        assert(s.skip(p.len() as int) =~= rest);
    }
    if strip_prefix_of(s, p) == Some(rest) {
        assert(s =~= s.subrange(0, p.len() as int) + s.skip(p.len() as int));
    }
}

/// Only ASCII capitals are changed to small letters, each to its own.
pub proof fn law_lower_case_changes_capitals_only(s: Seq<char>, i: int)
    requires
        0 <= i < s.len(),
    ensures
        lower(s).len() == s.len(),
        !('A' <= s[i] && s[i] <= 'Z') ==> lower(s)[i] == s[i],
        'A' <= s[i] && s[i] <= 'Z' ==> lower(s)[i] as int == s[i] as int + 32,
{
}

} // verus!
