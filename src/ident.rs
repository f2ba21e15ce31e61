//! Short identifiers `a, b, .., Z, ab, bb, ..`: the digits of a counter in
//! base 52, least significant digit first.
use vstd::prelude::*;

use crate::text::push_char;

verus! {

/// The digit alphabet, lower case letters first.
pub const ALPHABET: &'static str = "abcdefghijklmnopqrstuvwxyzABCDEFGHIJKLMNOPQRSTUVWXYZ";

/// The number of digits.
pub const RADIX: usize = 52;

/// The letters `a..z` then `A..Z`.
pub open spec fn alphabet() -> Seq<char> {
    ALPHABET@
}

/// The identifier with number `n`: its digits in base 52, least significant
/// first, at least one digit.
pub open spec fn ident_of(n: nat) -> Seq<char>
    decreases n,
{
    let d = seq![alphabet()[(n % 52) as int]];
    if n < 52 {
        d
    } else {
        d + ident_of(n / 52)
    }
}

/// A character is an ASCII letter.
pub open spec fn is_letter(c: char) -> bool {
    ('a' <= c && c <= 'z') || ('A' <= c && c <= 'Z')
}

proof fn lemma_alphabet()
    ensures
        alphabet().len() == 52,
        forall|i: int| 0 <= i < 52 ==> is_letter(#[trigger] alphabet()[i]),
        forall|i: int, j: int|
            0 <= i < 52 && 0 <= j < 52 && i != j ==> alphabet()[i] != alphabet()[j],
{
    reveal_strlit("abcdefghijklmnopqrstuvwxyzABCDEFGHIJKLMNOPQRSTUVWXYZ");
    assert(alphabet() =~= seq![
        'a', 'b', 'c', 'd', 'e', 'f', 'g', 'h', 'i', 'j', 'k', 'l', 'm',
        'n', 'o', 'p', 'q', 'r', 's', 't', 'u', 'v', 'w', 'x', 'y', 'z',
        'A', 'B', 'C', 'D', 'E', 'F', 'G', 'H', 'I', 'J', 'K', 'L', 'M',
        'N', 'O', 'P', 'Q', 'R', 'S', 'T', 'U', 'V', 'W', 'X', 'Y', 'Z',
    ]);
}

/// An identifier is a nonempty word of ASCII letters.
pub proof fn lemma_ident_letters(n: nat)
    ensures
        ident_of(n).len() > 0,
        forall|i: int| 0 <= i < ident_of(n).len() ==> is_letter(#[trigger] ident_of(n)[i]),
    decreases n,
{
    lemma_alphabet();
    if n >= 52 {
        lemma_ident_letters(n / 52);
        let d = seq![alphabet()[(n % 52) as int]];
        assert forall|i: int| 0 <= i < ident_of(n).len() implies is_letter(
            #[trigger] ident_of(n)[i],
        ) by {
            if i > 0 {
                assert(ident_of(n)[i] == ident_of(n / 52)[i - 1]);
            }
        }
    }
}

/// Distinct numbers give distinct identifiers.
pub proof fn lemma_ident_injective(m: nat, n: nat)
    requires
        m != n,
    ensures
        ident_of(m) != ident_of(n),
    decreases m + n,
{
    lemma_alphabet();
    if m % 52 != n % 52 {
        assert(ident_of(m)[0] != ident_of(n)[0]);
    } else if m < 52 && n < 52 {
    } else if m < 52 || n < 52 {
        lemma_ident_letters(m / 52);
        lemma_ident_letters(n / 52);
        assert(ident_of(m).len() != ident_of(n).len());
    } else {
        assert(m / 52 != n / 52);
        lemma_ident_injective(m / 52, n / 52);
        if ident_of(m) == ident_of(n) {
            assert(ident_of(m / 52) =~= ident_of(m).drop_first());
            assert(ident_of(n / 52) =~= ident_of(n).drop_first());
        }
    }
}

/// The position of the letter `c` in the alphabet.
pub open spec fn digit_of(c: char) -> nat {
    if 'a' <= c && c <= 'z' {
        (c as u32 - 'a' as u32) as nat
    } else {
        (c as u32 - 'A' as u32 + 26) as nat
    }
}

/// The number a word of letters spells, least significant digit first.
pub open spec fn word_value(w: Seq<char>) -> nat
    decreases w.len(),
{
    if w.len() == 0 {
        0
    } else {
        digit_of(w[0]) + 52 * word_value(w.drop_first())
    }
}

/// `w` is a word that the stream produces: nonempty, of letters, and with
/// no final `a` unless it is `a` itself (a final `a` would be a leading
/// zero digit).
pub open spec fn is_ident_word(w: Seq<char>) -> bool {
    &&& w.len() > 0
    &&& forall|i: int| 0 <= i < w.len() ==> is_letter(#[trigger] w[i])
    &&& (w.len() == 1 || w.last() != 'a')
}

proof fn lemma_digit_of(c: char)
    requires
        is_letter(c),
    ensures
        digit_of(c) < 52,
        alphabet()[digit_of(c) as int] == c,
{
    reveal_strlit("abcdefghijklmnopqrstuvwxyzABCDEFGHIJKLMNOPQRSTUVWXYZ");
    let s = seq![
        'a', 'b', 'c', 'd', 'e', 'f', 'g', 'h', 'i', 'j', 'k', 'l', 'm',
        'n', 'o', 'p', 'q', 'r', 's', 't', 'u', 'v', 'w', 'x', 'y', 'z',
        'A', 'B', 'C', 'D', 'E', 'F', 'G', 'H', 'I', 'J', 'K', 'L', 'M',
        'N', 'O', 'P', 'Q', 'R', 'S', 'T', 'U', 'V', 'W', 'X', 'Y', 'Z',
    ];
    assert(alphabet() =~= s);
    assert(forall|i: int| 0 <= i < 26 ==> #[trigger] s[i] as u32 == 'a' as u32 + i);
    assert(forall|i: int| 26 <= i < 52 ==> #[trigger] s[i] as u32 == 'A' as u32 + i - 26);
    let d = digit_of(c) as int;
    assert(s[d] as u32 == c as u32);
}

/// Every word of the stream's shape is produced, by the number it spells.
pub proof fn lemma_ident_onto(w: Seq<char>)
    requires
        is_ident_word(w),
    ensures
        ident_of(word_value(w)) == w,
    decreases w.len(),
{
    lemma_alphabet();
    lemma_digit_of(w[0]);
    let rest = w.drop_first();
    let n = word_value(w);
    assert(n % 52 == digit_of(w[0]) && n / 52 == word_value(rest)) by (nonlinear_arith)
        requires
            n == digit_of(w[0]) + 52 * word_value(rest),
            digit_of(w[0]) < 52,
    ;
    if w.len() == 1 {
        assert(word_value(rest) == 0);
        assert(ident_of(n) =~= w);
    } else {
        assert forall|i: int| 0 <= i < rest.len() implies is_letter(#[trigger] rest[i]) by {
            assert(rest[i] == w[i + 1]);
        }
        assert(rest.last() == w.last());
        lemma_ident_onto(rest);
        lemma_word_value_positive(rest);
        assert(ident_of(n) =~= seq![w[0]] + rest);
        assert(seq![w[0]] + rest =~= w);
    }
}

proof fn lemma_word_value_positive(w: Seq<char>)
    requires
        is_ident_word(w),
        w.last() != 'a',
    ensures
        word_value(w) > 0,
    decreases w.len(),
{
    lemma_digit_of(w[0]);
    lemma_digit_of(w.last());
    if w.len() == 1 {
        lemma_alphabet();
        reveal_strlit("abcdefghijklmnopqrstuvwxyzABCDEFGHIJKLMNOPQRSTUVWXYZ");
        assert(alphabet()[0] == 'a');
        assert(digit_of(w[0]) != 0);
    } else {
        let rest = w.drop_first();
        assert forall|i: int| 0 <= i < rest.len() implies is_letter(#[trigger] rest[i]) by {
            assert(rest[i] == w[i + 1]);
        }
        assert(rest.last() == w.last());
        lemma_word_value_positive(rest);
    }
}

/// Every identifier has the stream's shape.
pub proof fn lemma_ident_shape(n: nat)
    ensures
        is_ident_word(ident_of(n)),
    decreases n,
{
    lemma_ident_letters(n);
    lemma_alphabet();
    reveal_strlit("abcdefghijklmnopqrstuvwxyzABCDEFGHIJKLMNOPQRSTUVWXYZ");
    if n >= 52 {
        let m = n / 52;
        lemma_ident_shape(m);
        lemma_ident_letters(m);
        let d = seq![alphabet()[(n % 52) as int]];
        assert(ident_of(n) == d + ident_of(m));
        assert(ident_of(n).len() == 1 + ident_of(m).len());
        assert(ident_of(n).last() == ident_of(m).last());
        if m < 52 {
            assert(alphabet()[0] == 'a');
            assert(ident_of(m) =~= seq![alphabet()[m as int]]);
            assert(m != 0);
            assert(alphabet()[m as int] != alphabet()[0]);
        } else {
            lemma_ident_letters(m / 52);
            assert(ident_of(m) == seq![alphabet()[(m % 52) as int]] + ident_of(m / 52));
            assert(ident_of(m).len() >= 2);
        }
        assert(ident_of(n).last() != 'a');
    } else {
        assert(ident_of(n).len() == 1);
    }
}

/// A restartable stream of short identifiers. The next identifier drawn is
/// `ident_of(n)`.
pub struct MinifiedIdent {
    pub n: usize,
}

impl MinifiedIdent {
    /// A fresh stream, which starts at `a`.
    pub fn new() -> (r: MinifiedIdent)
        ensures
            r.n == 0,
    {
        MinifiedIdent { n: 0 }
    }

    /// Draws the next identifier. The stream ends when its counter cannot
    /// grow any further.
    pub fn next(&mut self) -> (r: Option<String>)
        ensures
            old(self).n < usize::MAX ==> r is Some && r->Some_0@ == ident_of(old(self).n as nat)
                && final(self).n == old(self).n + 1,
            old(self).n == usize::MAX ==> r is None && final(self).n == old(self).n,
    {
        if self.n == usize::MAX {
            return None;
        }
        let r = ident_string(self.n);
        self.n = self.n + 1;
        Some(r)
    }
}

/// The identifier with number `n`, as a string.
pub fn ident_string(n: usize) -> (r: String)
    ensures
        r@ == ident_of(n as nat),
{
    proof {
        lemma_alphabet();
        reveal_strlit("abcdefghijklmnopqrstuvwxyzABCDEFGHIJKLMNOPQRSTUVWXYZ");
    }
    let mut r = String::new();
    let mut m: usize = n;
    loop
        invariant
            r@ + ident_of(m as nat) == ident_of(n as nat),
            alphabet().len() == 52,
        decreases m,
    {
        let d = m % RADIX;
        let c = ALPHABET.get_char(d);
        push_char(&mut r, c);
        if m < RADIX {
            assert(r@ =~= ident_of(n as nat)) by {
                assert(ident_of(m as nat) =~= seq![c]);
            };
            return r;
        }
        assert(ident_of(m as nat) =~= seq![c] + ident_of((m / RADIX) as nat));
        assert(r@ + ident_of((m / RADIX) as nat) =~= ident_of(n as nat));
        m = m / RADIX;
    }
}

} // verus!
