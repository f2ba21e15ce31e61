//! Character-level text operations.
use vstd::prelude::*;
use vstd::std_specs::iter::IteratorSpec;

verus! {

/// `s` with every occurrence of `from` replaced by `to`, scanning from the
/// left and never reusing a character of an earlier match. An empty pattern
/// leaves `s` as it is.
pub open spec fn replace_all(s: Seq<char>, from: Seq<char>, to: Seq<char>) -> Seq<char>
    decreases s.len(),
{
    if from.len() == 0 || s.len() < from.len() {
        s
    } else if s.subrange(0, from.len() as int) == from {
        to + replace_all(s.subrange(from.len() as int, s.len() as int), from, to)
    } else {
        seq![s[0]] + replace_all(s.drop_first(), from, to)
    }
}

/// `from` occurs in `s`.
pub open spec fn occurs_in(from: Seq<char>, s: Seq<char>) -> bool {
    exists|i: int| 0 <= i && i + from.len() <= s.len() && #[trigger] s.subrange(i, i + from.len()) == from
}

/// Relies on `String::push`: it appends one character.
#[verifier::external_body]
pub(crate) fn push_char(s: &mut String, c: char)
    ensures
        final(s)@ == old(s)@.push(c),
{
    s.push(c)
}

/// The characters of `s`, in order.
pub(crate) fn chars_of(s: &str) -> (r: Vec<char>)
    ensures
        r@ == s@,
{
    broadcast use vstd::string::group_string_axioms;

    let mut it = s.chars();
    let mut r: Vec<char> = Vec::new();
    loop
        invariant
            r@ + it.remaining() == s@,
            it.decrease() is Some,
        ensures
            r@ == s@,
        decreases it.decrease()->Some_0,
    {
        match it.next() {
            Some(c) => {
                let ghost rest = it.remaining();
                r.push(c);
                assert(r@ + rest =~= s@);
            },
            None => {
                assert(r@ =~= s@);
                break;
            },
        }
    }
    r
}

/// The string of the characters `v`.
pub(crate) fn string_of(v: &Vec<char>) -> (r: String)
    ensures
        r@ == v@,
{
    let mut r = String::new();
    let mut i: usize = 0;
    while i < v.len()
        invariant
            i <= v@.len(),
            r@ == v@.subrange(0, i as int),
        decreases v@.len() - i,
    {
        push_char(&mut r, v[i]);
        assert(v@.subrange(0, i + 1) =~= v@.subrange(0, i as int).push(v@[i as int]));
        i = i + 1;
    }
    assert(v@.subrange(0, v@.len() as int) =~= v@);
    r
}

/// `pat` stands in `text` at position `i`.
fn matches_at(text: &Vec<char>, i: usize, pat: &Vec<char>) -> (r: bool)
    requires
        i <= text@.len(),
    ensures
        r == (i + pat@.len() <= text@.len() && text@.subrange(
            i as int,
            i + pat@.len(),
        ) == pat@),
{
    if pat.len() > text.len() - i {
        return false;
    }
    let mut k: usize = 0;
    while k < pat.len()
        invariant
            i + pat@.len() <= text@.len(),
            text@.len() <= usize::MAX,
            k <= pat@.len(),
            forall|j: int| 0 <= j < k ==> text@[i + j] == pat@[j],
        decreases pat@.len() - k,
    {
        if text[i + k] != pat[k] {
            assert(text@.subrange(i as int, i + pat@.len())[k as int] != pat@[k as int]);
            return false;
        }
        k = k + 1;
    }
    assert(text@.subrange(i as int, i + pat@.len()) =~= pat@);
    true
}

proof fn lemma_replace_step(s: Seq<char>, i: int, from: Seq<char>, to: Seq<char>)
    requires
        0 <= i < s.len(),
        from.len() > 0,
    ensures
        i + from.len() <= s.len() && s.subrange(i, i + from.len()) == from ==> replace_all(
            s.subrange(i, s.len() as int),
            from,
            to,
        ) == to + replace_all(s.subrange(i + from.len(), s.len() as int), from, to),
        !(i + from.len() <= s.len() && s.subrange(i, i + from.len()) == from) ==> replace_all(
            s.subrange(i, s.len() as int),
            from,
            to,
        ) == seq![s[i]] + replace_all(s.subrange(i + 1, s.len() as int), from, to),
{
    let t = s.subrange(i, s.len() as int);
    assert(t.subrange(0, from.len() as int) =~= s.subrange(i, i + from.len()) || t.len()
        < from.len());
    assert(t.subrange(from.len() as int, t.len() as int) =~= s.subrange(
        i + from.len(),
        s.len() as int,
    ) || t.len() < from.len());
    assert(t.drop_first() =~= s.subrange(i + 1, s.len() as int));
    if t.len() < from.len() {
        assert(replace_all(t.drop_first(), from, to) == t.drop_first()) by {
            assert(t.drop_first().len() < from.len());
        }
        assert(t =~= seq![s[i]] + t.drop_first());
    }
}

/// `s` with every occurrence of `from` replaced by `to` (see `replace_all`).
pub fn replace(s: &str, from: &str, to: &str) -> (r: String)
    ensures
        r@ == replace_all(s@, from@, to@),
{
    let text = chars_of(s);
    let pat = chars_of(from);
    if pat.len() == 0 {
        return string_of(&text);
    }
    let mut r = String::new();
    let mut i: usize = 0;
    assert(text@.subrange(0, text@.len() as int) =~= text@);
    assert(r@ + text@ =~= text@);
    while i < text.len()
        invariant
            text@ == s@,
            pat@ == from@,
            pat@.len() > 0,
            i <= text@.len(),
            r@ + replace_all(text@.subrange(i as int, text@.len() as int), pat@, to@) == replace_all(
                s@,
                from@,
                to@,
            ),
        decreases text@.len() - i,
    {
        proof {
            lemma_replace_step(text@, i as int, pat@, to@);
        }
        let ghost r0 = r@;
        if matches_at(&text, i, &pat) {
            r.append(to);
            let ghost rest = replace_all(text@.subrange(i + pat@.len(), text@.len() as int), pat@, to@);
            assert(r@ + rest =~= r0 + (to@ + rest));
            i = i + pat.len();
        } else {
            let c = text[i];
            push_char(&mut r, c);
            let ghost rest = replace_all(text@.subrange(i + 1, text@.len() as int), pat@, to@);
            assert(r@ + rest =~= r0 + (seq![c] + rest));
            i = i + 1;
        }
    }
    assert(text@.subrange(text@.len() as int, text@.len() as int) =~= Seq::<char>::empty());
    assert(r@ =~= r@ + Seq::<char>::empty());
    r
}


/// Replacing a pattern by itself changes nothing.
pub proof fn lemma_replace_same(s: Seq<char>, from: Seq<char>)
    ensures
        replace_all(s, from, from) == s,
    decreases s.len(),
{
    if from.len() == 0 || s.len() < from.len() {
    } else if s.subrange(0, from.len() as int) == from {
        lemma_replace_same(s.subrange(from.len() as int, s.len() as int), from);
        assert(from + s.subrange(from.len() as int, s.len() as int) =~= s);
    } else {
        lemma_replace_same(s.drop_first(), from);
        assert(seq![s[0]] + s.drop_first() =~= s);
    }
}

} // verus!
