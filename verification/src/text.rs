//! Character classes and whitespace tokenisation of free text.
use vstd::prelude::*;

verus! {

/// An ASCII decimal digit, the only digits `char::to_digit(10)` and the
/// integer parsers of `str` accept.
pub open spec fn is_digit(c: char) -> bool {
    '0' <= c && c <= '9'
}

/// The numeric value of a decimal digit character.
pub open spec fn digit_value(c: char) -> nat {
    (c as int - '0' as int) as nat
}

/// Every character of `s` is a decimal digit.
pub open spec fn all_digits(s: Seq<char>) -> bool {
    forall|i: int| 0 <= i < s.len() ==> is_digit(#[trigger] s[i])
}

/// A character with the Unicode `White_Space` property, the set that
/// `char::is_whitespace` and `str::split_whitespace` use.
pub open spec fn is_whitespace(c: char) -> bool {
    ||| ('\u{9}' <= c && c <= '\u{d}')
    ||| c == ' '
    ||| c == '\u{85}'
    ||| c == '\u{a0}'
    ||| c == '\u{1680}'
    ||| ('\u{2000}' <= c && c <= '\u{200a}')
    ||| c == '\u{2028}'
    ||| c == '\u{2029}'
    ||| c == '\u{202f}'
    ||| c == '\u{205f}'
    ||| c == '\u{3000}'
}

/// The maximal runs of non-whitespace characters of `s`, in order: what
/// `str::split_whitespace` yields.  Defined one character at a time: a
/// whitespace character ends the current run, any other character extends
/// the run that its predecessor belongs to or starts a new one.
pub open spec fn whitespace_tokens(s: Seq<char>) -> Seq<Seq<char>>
    decreases s.len(),
{
    if s.len() == 0 {
        seq![]
    } else {
        let prev = whitespace_tokens(s.drop_last());
        let c = s.last();
        if is_whitespace(c) {
            prev
        } else if s.len() >= 2 && !is_whitespace(s[s.len() - 2]) {
            prev.update(prev.len() - 1, prev.last().push(c))
        } else {
            prev.push(seq![c])
        }
    }
}

pub fn check_digit(c: char) -> (r: bool)
    ensures
        r == is_digit(c),
{
    '0' <= c && c <= '9'
}

pub fn check_whitespace(c: char) -> (r: bool)
    ensures
        r == is_whitespace(c),
{
    ('\u{9}' <= c && c <= '\u{d}') || c == ' ' || c == '\u{85}' || c == '\u{a0}' || c
        == '\u{1680}' || ('\u{2000}' <= c && c <= '\u{200a}') || c == '\u{2028}' || c
        == '\u{2029}' || c == '\u{202f}' || c == '\u{205f}' || c == '\u{3000}'
}

/// The characters of `s`, one by one.
pub fn chars_of(s: &str) -> (v: Vec<char>)
    ensures
        v@ == s@,
{
    let n = s.unicode_len();
    let mut v: Vec<char> = Vec::new();
    let mut i: usize = 0;
    while i < n
        invariant
            n == s@.len(),
            i <= n,
            v@ == s@.take(i as int),
        decreases n - i,
    {
        v.push(s.get_char(i));
        i += 1;
        assert(v@ =~= s@.take(i as int));
    }
    assert(s@.take(n as int) =~= s@);
    v
}

/// Splits `s` at whitespace, as `str::split_whitespace` does.
pub fn split_whitespace(s: &str) -> (tokens: Vec<String>)
    ensures
        tokens.deep_view() == whitespace_tokens(s@),
{
    let cs = chars_of(s);
    let n = cs.len();
    let mut out: Vec<String> = Vec::new();
    let mut start: usize = 0;
    let mut in_token = false;
    let mut i: usize = 0;
    assert(s@.take(0) =~= Seq::<char>::empty());
    assert(out.deep_view() =~= Seq::<Seq<char>>::empty());
    while i < n
        invariant
            n == cs@.len(),
            cs@ == s@,
            i <= n,
            in_token ==> start < i && !is_whitespace(cs@[i - 1]),
            !in_token ==> (i == 0 || is_whitespace(cs@[i - 1])),
            whitespace_tokens(s@.take(i as int)) == out.deep_view() + (if in_token {
                seq![s@.subrange(start as int, i as int)]
            } else {
                Seq::<Seq<char>>::empty()
            }),
        decreases n - i,
    {
        let c = cs[i];
        let ghost before = out.deep_view();
        assert(s@.take(i + 1).drop_last() =~= s@.take(i as int));
        assert(s@.take(i + 1).last() == c);
        if check_whitespace(c) {
            if in_token {
                let t = s.substring_char(start, i).to_owned();
                out.push(t);
                assert(out.deep_view() =~= before.push(s@.subrange(start as int, i as int)));
                in_token = false;
            } else {
                assert(before + Seq::<Seq<char>>::empty() =~= before);
            }
        } else {
            if in_token {
                assert(s@.take(i + 1)[i - 1] == cs@[i - 1]);
                assert(s@.subrange(start as int, i as int).push(c) =~= s@.subrange(
                    start as int,
                    i + 1,
                ));
                assert((before + seq![s@.subrange(start as int, i as int)]).update(
                    before.len() as int,
                    s@.subrange(start as int, i + 1),
                ) =~= before + seq![s@.subrange(start as int, i + 1)]);
            } else {
                if i > 0 {
                    assert(s@.take(i + 1)[i - 1] == cs@[i - 1]);
                }
                assert(s@.subrange(i as int, i + 1) =~= seq![c]);
                assert(before + Seq::<Seq<char>>::empty() =~= before);
                assert(before.push(seq![c]) =~= before + seq![s@.subrange(i as int, i + 1)]);
                start = i;
                in_token = true;
            }
        }
        i += 1;
    }
    assert(s@.take(n as int) =~= s@);
    if in_token {
        let ghost before = out.deep_view();
        let t = s.substring_char(start, n).to_owned();
        out.push(t);
        assert(out.deep_view() =~= before.push(s@.subrange(start as int, n as int)));
        assert(before + seq![s@.subrange(start as int, n as int)] =~= before.push(
            s@.subrange(start as int, n as int),
        ));
    } else {
        assert(out.deep_view() + Seq::<Seq<char>>::empty() =~= out.deep_view());
    }
    out
}

/// No character of `t` is whitespace.
pub open spec fn no_whitespace(t: Seq<char>) -> bool {
    forall|j: int| 0 <= j < t.len() ==> !is_whitespace(#[trigger] t[j])
}

/// Splitting at whitespace loses the whitespace and nothing else: every
/// token is non-empty and free of whitespace, and the tokens joined
/// together give the characters of `s` that are not whitespace, in order.
pub proof fn lemma_tokens_partition(s: Seq<char>)
    ensures
        forall|i: int|
            0 <= i < whitespace_tokens(s).len() ==> (#[trigger] whitespace_tokens(s)[i]).len() > 0
                && no_whitespace(whitespace_tokens(s)[i]),
        whitespace_tokens(s).flatten() == s.filter(|c: char| !is_whitespace(c)),
        s.len() > 0 && !is_whitespace(s.last()) ==> whitespace_tokens(s).len() > 0,
    decreases s.len(),
{
    reveal(Seq::filter);
    broadcast use Seq::lemma_flatten_push;

    let pred = |c: char| !is_whitespace(c);
    if s.len() == 0 {
        assert(whitespace_tokens(s).flatten() =~= Seq::<char>::empty());
    } else {
        let d = s.drop_last();
        lemma_tokens_partition(d);
        let prev = whitespace_tokens(d);
        let c = s.last();
        let toks = whitespace_tokens(s);
        assert(s.filter(pred) == if pred(c) {
            d.filter(pred).push(c)
        } else {
            d.filter(pred)
        });
        if is_whitespace(c) {
        } else if s.len() >= 2 && !is_whitespace(s[s.len() - 2]) {
            assert(d.last() == s[s.len() - 2]);
            let last = prev.last().push(c);
            assert(prev =~= prev.drop_last().push(prev.last()));
            assert(toks =~= prev.drop_last().push(last));
            assert(prev.last().len() > 0 && no_whitespace(prev.last()));
            assert forall|i: int| 0 <= i < toks.len() implies (#[trigger] toks[i]).len() > 0
                && no_whitespace(toks[i]) by {
                if i < toks.len() - 1 {
                    assert(toks[i] == prev[i]);
                } else {
                    assert(toks[i] == last);
                    assert forall|j: int| 0 <= j < last.len() implies !is_whitespace(
                        #[trigger] last[j],
                    ) by {
                        if j < last.len() - 1 {
                            assert(last[j] == prev.last()[j]);
                        }
                    }
                }
            }
            assert(toks.flatten() =~= prev.drop_last().flatten() + last);
            assert(prev.flatten() =~= prev.drop_last().flatten() + prev.last());
            assert(toks.flatten() =~= prev.flatten().push(c));
        } else {
            assert(toks =~= prev.push(seq![c]));
            assert forall|i: int| 0 <= i < toks.len() implies (#[trigger] toks[i]).len() > 0
                && no_whitespace(toks[i]) by {
                if i < toks.len() - 1 {
                    assert(toks[i] == prev[i]);
                } else {
                    assert(toks[i] == seq![c]);
                }
            }
            assert(toks.flatten() =~= prev.flatten() + seq![c]);
        }
    }
}

/// A non-empty text without whitespace is a single token.
pub proof fn lemma_tokens_of_word(t: Seq<char>)
    requires
        t.len() > 0,
        no_whitespace(t),
    ensures
        whitespace_tokens(t) == seq![t],
    decreases t.len(),
{
    let d = t.drop_last();
    assert(!is_whitespace(t[t.len() - 1]));
    if d.len() == 0 {
        assert(whitespace_tokens(d) =~= Seq::<Seq<char>>::empty());
        assert(t =~= seq![t.last()]);
    } else {
        assert forall|j: int| 0 <= j < d.len() implies !is_whitespace(#[trigger] d[j]) by {
            assert(d[j] == t[j]);
        }
        lemma_tokens_of_word(d);
        assert(!is_whitespace(t[t.len() - 2]));
        assert(d.push(t.last()) =~= t);
        assert(seq![d].update(0, d.push(t.last())) =~= seq![t]);
    }
}

/// Splitting at whitespace splits a text at any of its whitespace
/// characters: the tokens of `a`, a whitespace character and `b` are the
/// tokens of `a` followed by those of `b`.
pub proof fn lemma_tokens_split_at_whitespace(a: Seq<char>, w: char, b: Seq<char>)
    requires
        is_whitespace(w),
    ensures
        whitespace_tokens(a + seq![w] + b) == whitespace_tokens(a) + whitespace_tokens(b),
    decreases b.len(),
{
    let s = a + seq![w] + b;
    if b.len() == 0 {
        assert(s.drop_last() =~= a);
        assert(whitespace_tokens(b) =~= Seq::<Seq<char>>::empty());
        assert(whitespace_tokens(a) + whitespace_tokens(b) =~= whitespace_tokens(a));
    } else {
        let b0 = b.drop_last();
        let c = b.last();
        lemma_tokens_split_at_whitespace(a, w, b0);
        assert(s.drop_last() =~= a + seq![w] + b0);
        assert(s.last() == c);
        let pa = whitespace_tokens(a);
        let pb = whitespace_tokens(b0);
        if is_whitespace(c) {
        } else if b0.len() == 0 {
            assert(s[s.len() - 2] == w);
            assert(whitespace_tokens(b0) =~= Seq::<Seq<char>>::empty());
            assert(whitespace_tokens(b) == pb.push(seq![c]));
            assert((pa + pb).push(seq![c]) =~= pa + pb.push(seq![c]));
        } else {
            assert(s[s.len() - 2] == b0.last());
            assert(b[b.len() - 2] == b0.last());
            if is_whitespace(b0.last()) {
                assert((pa + pb).push(seq![c]) =~= pa + pb.push(seq![c]));
            } else {
                lemma_tokens_partition(b0);
                assert(pb.len() > 0);
                assert((pa + pb).update((pa + pb).len() - 1, (pa + pb).last().push(c)) =~= pa
                    + pb.update(pb.len() - 1, pb.last().push(c)));
            }
        }
    }
}

/// No character of `s` at the positions `lo..hi` is whitespace.
pub open spec fn no_whitespace_between(s: Seq<char>, lo: int, hi: int) -> bool
    decreases hi - lo,
{
    lo >= hi || (!is_whitespace(s[lo]) && no_whitespace_between(s, lo + 1, hi))
}

pub proof fn lemma_no_whitespace_between(s: Seq<char>, lo: int, hi: int)
    requires
        0 <= lo <= hi <= s.len(),
        no_whitespace_between(s, lo, hi),
    ensures
        no_whitespace(s.subrange(lo, hi)),
    decreases hi - lo,
{
    if lo < hi {
        lemma_no_whitespace_between(s, lo + 1, hi);
        assert forall|j: int| 0 <= j < hi - lo implies !is_whitespace(
            #[trigger] s.subrange(lo, hi)[j],
        ) by {
            if j > 0 {
                assert(s.subrange(lo, hi)[j] == s.subrange(lo + 1, hi)[j - 1]);
            }
        }
    }
}

/// The tokens of `s[lo..]`, where `s[lo..hi]` is a word followed by a
/// whitespace character: that word, then the tokens of `s[hi + 1..]`.
pub proof fn lemma_tokens_peel_word(s: Seq<char>, lo: int, hi: int)
    requires
        0 <= lo < hi < s.len(),
        no_whitespace_between(s, lo, hi),
        is_whitespace(s[hi]),
    ensures
        whitespace_tokens(s.subrange(lo, s.len() as int)) == seq![s.subrange(lo, hi)]
            + whitespace_tokens(s.subrange(hi + 1, s.len() as int)),
{
    lemma_no_whitespace_between(s, lo, hi);
    lemma_tokens_of_word(s.subrange(lo, hi));
    assert(s.subrange(lo, s.len() as int) =~= s.subrange(lo, hi) + seq![s[hi]] + s.subrange(
        hi + 1,
        s.len() as int,
    ));
    lemma_tokens_split_at_whitespace(s.subrange(lo, hi), s[hi], s.subrange(hi + 1, s.len() as int));
}

/// The tokens of `s[lo..]` where that is a single word.
pub proof fn lemma_tokens_last_word(s: Seq<char>, lo: int)
    requires
        0 <= lo < s.len(),
        no_whitespace_between(s, lo, s.len() as int),
    ensures
        whitespace_tokens(s.subrange(lo, s.len() as int)) == seq![s.subrange(lo, s.len() as int)],
{
    lemma_no_whitespace_between(s, lo, s.len() as int);
    lemma_tokens_of_word(s.subrange(lo, s.len() as int));
}

} // verus!
