//! What holds of numerals and of searching in texts.

use crate::text::{
    decimal, find, hexadecimal, is_white_space, lemma_find_is, lemma_rfind_is, occurrences,
    occurs_at, pad_left, rfind, trim_end, utf8_len,
};
use vstd::arithmetic::div_mod::lemma_div_denominator;
use vstd::arithmetic::power::{lemma_pow_positive, pow};
use vstd::prelude::*;

verus! {

proof fn lemma_next_power(base: int, k: nat)
    requires
        base > 0,
        k > 0,
    ensures
        pow(base, k) == base * pow(base, (k - 1) as nat),
        pow(base, (k - 1) as nat) > 0,
{
    reveal(pow);
    lemma_pow_positive(base, (k - 1) as nat);
}

/// In a decimal numeral, the digit `k` places from the end stands for the multiples of the power `k`
/// of ten in the number. There are just as many digits as the number needs.
pub proof fn decimal_numerals_are_positional(n: nat, k: nat)
    requires
        k < decimal(n).len(),
    ensures
        decimal(n)[decimal(n).len() - 1 - k] as int == '0' as int + n as int / pow(10, k) % 10,
        n < pow(10, decimal(n).len()),
        n > 0 ==> pow(10, (decimal(n).len() - 1) as nat) <= n,
        decimal(n).len() >= 1 && (n == 0 ==> decimal(n).len() == 1),
    decreases n,
{
    reveal(pow);
    if n >= 10 {
        let (front, len) = (n / 10, decimal(n).len());
        assert(decimal(n) == decimal(front).push(crate::text::digit((n % 10) as int)));
        decimal_numerals_are_positional(front, 0);
        lemma_next_power(10, len);
        lemma_next_power(10, (len - 1) as nat);
        if k > 0 {
            decimal_numerals_are_positional(front, (k - 1) as nat);
            lemma_next_power(10, k);
            lemma_div_denominator(n as int, 10, pow(10, (k - 1) as nat));
        } else {
            assert(n as int / 1 == n);
        }
    } else {
        assert(n as int / 1 == n);
        assert(pow(10, 1) == 10 * pow(10, 0));
        assert(pow(10, 0) == 1);
    }
}

/// In a hexadecimal numeral, the digit `k` places from the end stands for the multiples of the power
/// `k` of sixteen in the number, with letters from `A` on for ten and more.
pub proof fn hexadecimal_numerals_are_positional(n: nat, k: nat)
    requires
        k < hexadecimal(n).len(),
    ensures
        ({
            let c = hexadecimal(n)[hexadecimal(n).len() - 1 - k];
            let d = n as int / pow(16, k) % 16;
            c as int == (if d < 10 {
                '0' as int + d
            } else {
                'A' as int + d - 10
            })
        }),
        n < pow(16, hexadecimal(n).len()),
        n > 0 ==> pow(16, (hexadecimal(n).len() - 1) as nat) <= n,
        hexadecimal(n).len() >= 1 && (n == 0 ==> hexadecimal(n).len() == 1),
    decreases n,
{
    reveal(pow);
    if n >= 16 {
        let (front, len) = (n / 16, hexadecimal(n).len());
        assert(hexadecimal(n) == hexadecimal(front).push(crate::text::hex_digit((n % 16) as int)));
        hexadecimal_numerals_are_positional(front, 0);
        lemma_next_power(16, len);
        lemma_next_power(16, (len - 1) as nat);
        if k > 0 {
            hexadecimal_numerals_are_positional(front, (k - 1) as nat);
            lemma_next_power(16, k);
            lemma_div_denominator(n as int, 16, pow(16, (k - 1) as nat));
        } else {
            assert(n as int / 1 == n);
        }
    } else {
        assert(n as int / 1 == n);
        assert(pow(16, 1) == 16 * pow(16, 0));
        assert(pow(16, 0) == 1);
    }
}

/// A padded text is at least as long as asked for, ends in the text, and has nothing but padding in
/// front of it.
pub proof fn padding_stands_in_front(s: Seq<char>, fill: char, width: nat, i: int)
    ensures
        pad_left(s, fill, width).len() == (if s.len() < width {
            width
        } else {
            s.len()
        }),
        0 <= i < pad_left(s, fill, width).len() - s.len() ==> pad_left(s, fill, width)[i] == fill,
        0 <= i < s.len() ==> pad_left(s, fill, width)[pad_left(s, fill, width).len() - s.len() + i]
            == s[i],
{
}

/// Whether each character of `pat` stands in `s`, from index `i` on.
pub open spec fn stands_at(s: Seq<char>, pat: Seq<char>, i: int) -> bool {
    &&& 0 <= i && i + pat.len() <= s.len()
    &&& forall|k: int| 0 <= k < pat.len() ==> s[i + k] == #[trigger] pat[k]
}

proof fn lemma_stands_at(s: Seq<char>, pat: Seq<char>, i: int)
    ensures
        stands_at(s, pat, i) == occurs_at(s, pat, i),
{
    if occurs_at(s, pat, i) {
        let w = s.subrange(i, i + pat.len());
        assert forall|k: int| 0 <= k < pat.len() implies s[i + k] == #[trigger] pat[k] by {
            assert(w[k] == s[i + k]);
        }
    }
    if stands_at(s, pat, i) {
        assert(s.subrange(i, i + pat.len()) =~= pat);
    }
}

/// A search from the left finds the first place at which the pattern stands, character by character,
/// and fails only where there is none.
pub proof fn searching_finds_the_first(s: Seq<char>, pat: Seq<char>, j: int)
    ensures
        match find(s, pat) {
            Some(i) => stands_at(s, pat, i) && (j < i ==> !stands_at(s, pat, j)),
            None => !stands_at(s, pat, j),
        },
{
    lemma_stands_at(s, pat, j);
    match find(s, pat) {
        Some(i) => {
            lemma_stands_at(s, pat, i);
        },
        None => {
            if occurs_at(s, pat, j) {
                lemma_has_first(s, pat, j);
            }
        },
    }
}

proof fn lemma_has_first(s: Seq<char>, pat: Seq<char>, j: int)
    requires
        occurs_at(s, pat, j),
    ensures
        find(s, pat) is Some,
    decreases j,
{
    if exists|k: int| 0 <= k < j && #[trigger] occurs_at(s, pat, k) {
        let k = choose|k: int| 0 <= k < j && #[trigger] occurs_at(s, pat, k);
        lemma_has_first(s, pat, k);
    } else {
        lemma_find_is(s, pat, j);
    }
}

/// A search from the right finds the last place at which the pattern stands, and fails only where
/// there is none.
pub proof fn searching_backwards_finds_the_last(s: Seq<char>, pat: Seq<char>, j: int)
    ensures
        match rfind(s, pat) {
            Some(i) => stands_at(s, pat, i) && (i < j ==> !stands_at(s, pat, j)),
            None => !stands_at(s, pat, j),
        },
{
    lemma_stands_at(s, pat, j);
    match rfind(s, pat) {
        Some(i) => {
            lemma_stands_at(s, pat, i);
        },
        None => {
            if occurs_at(s, pat, j) {
                lemma_has_last(s, pat, j);
            }
        },
    }
}

proof fn lemma_has_last(s: Seq<char>, pat: Seq<char>, j: int)
    requires
        occurs_at(s, pat, j),
    ensures
        rfind(s, pat) is Some,
    decreases s.len() - j,
{
    if exists|k: int| j < k && #[trigger] occurs_at(s, pat, k) {
        let k = choose|k: int| j < k && #[trigger] occurs_at(s, pat, k);
        lemma_has_last(s, pat, k);
    } else {
        lemma_rfind_is(s, pat, j);
    }
}

/// The indices of `s`, below its length, at which `pat` stands.
pub open spec fn places(s: Seq<char>, pat: Seq<char>) -> Set<int> {
    Set::new(|i: int| 0 <= i < s.len() && stands_at(s, pat, i))
}

/// Every place at which a pattern stands is counted, once.
pub proof fn every_place_counts_once(s: Seq<char>, pat: Seq<char>)
    ensures
        places(s, pat).finite(),
        occurrences(s, pat) == places(s, pat).len(),
    decreases s.len(),
{
    let all = places(s, pat);
    if s.len() == 0 {
        assert(all =~= Set::empty());
    } else {
        let rest = places(s.skip(1), pat);
        every_place_counts_once(s.skip(1), pat);
        lemma_stands_at(s, pat, 0);
        let moved = rest.map(|i: int| i + 1);
        vstd::set_lib::lemma_map_size(rest, moved, |i: int| i + 1);
        assert forall|i: int| 1 <= i implies all.contains(i) == rest.contains(i - 1) by {
            lemma_shift(s, pat, i);
        }
        assert forall|i: int| moved.contains(i) == (i >= 1 && all.contains(i)) by {
            if i >= 1 && all.contains(i) {
                assert(rest.contains(i - 1));
                assert(moved.contains((i - 1) + 1));
            }
            if moved.contains(i) {
                let j = choose|j: int| rest.contains(j) && i == j + 1;
                assert(rest.contains(i - 1));
            }
        }
        if stands_at(s, pat, 0) {
            assert(all =~= moved.insert(0));
        } else {
            assert(all =~= moved);
        }
    }
}

proof fn lemma_shift(s: Seq<char>, pat: Seq<char>, i: int)
    requires
        s.len() > 0,
        1 <= i,
    ensures
        stands_at(s, pat, i) == stands_at(s.skip(1), pat, i - 1),
{
    let t = s.skip(1);
    if stands_at(t, pat, i - 1) {
        assert forall|k: int| 0 <= k < pat.len() implies s[i + k] == #[trigger] pat[k] by {
            assert(t[i - 1 + k] == pat[k]);
        }
    }
    if stands_at(s, pat, i) {
        assert forall|k: int| 0 <= k < pat.len() implies t[i - 1 + k] == #[trigger] pat[k] by {
            assert(s[i + k] == pat[k]);
        }
    }
}

/// Trimming takes the white space at the end of a text, all of it and nothing else.
pub proof fn trimming_takes_the_white_space_at_the_end(s: Seq<char>, i: int)
    ensures
        trim_end(s).len() <= s.len(),
        trim_end(s) == s.take(trim_end(s).len() as int),
        trim_end(s).len() <= i < s.len() ==> is_white_space(s[i]),
        trim_end(s).len() > 0 ==> !is_white_space(trim_end(s).last()),
    decreases s.len(),
{
    if s.len() > 0 && is_white_space(s.last()) {
        let t = s.drop_last();
        trimming_takes_the_white_space_at_the_end(t, i);
        assert(s.take(trim_end(t).len() as int) =~= t.take(trim_end(t).len() as int));
    } else {
        assert(s.take(s.len() as int) =~= s);
    }
}

/// White space is made of the twenty-five characters that Unicode calls so.
pub proof fn white_space_is_that_of_unicode(c: char)
    ensures
        is_white_space(c) <==> {
            let n = c as u32;
            ||| n == 9 || n == 10 || n == 11 || n == 12 || n == 13 || n == 32 || n == 133 || n == 160
            ||| n == 5760
            ||| 8192 <= n <= 8202
            ||| n == 8232 || n == 8233 || n == 8239 || n == 8287 || n == 12288
        },
{
}

/// The length of a text in bytes is that of its encoding in UTF-8, and adds up over its parts.
pub proof fn lengths_are_in_bytes_of_utf8(s: Seq<char>, t: Seq<char>)
    ensures
        utf8_len(s) == vstd::utf8::encode_utf8(s).len(),
        utf8_len(s + t) == vstd::utf8::encode_utf8(s).len() + vstd::utf8::encode_utf8(t).len(),
{
    crate::text::lemma_utf8_len_add(s, t);
}

} // verus!
