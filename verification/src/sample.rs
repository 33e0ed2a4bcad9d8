//! The element set of the sample test case, and the proof that it can be read.
use vstd::prelude::*;
use crate::text::{whitespace_tokens, no_whitespace_between, lemma_tokens_peel_word, lemma_tokens_last_word};
use crate::numeric::{digits_between, lemma_point_decimal_between, lemma_zero_prefixed_decimal, lemma_zero_point_prefixed, lemma_single_digit_u32};
use crate::tle::{RowsView, tle_text, text_rows, rows_of, rows_step, columns_readable, lemma_exponent_field_between};

verus! {

/// The element set of the sample test case of SPACETRACK REPORT NO. 3,
/// shown when the viewer starts.
pub const SGP4TLE: &'static str =
    "SGP4 (SGP4)\n1 88888U 80081S 80275.98708465 .00073094 13844-3 66816-4 0 6\n2 88888 72.8435 115.9689 0086731 52.6988 110.5714 16.05824718105";

/// The rows of a token sequence grow one token at a time.
pub broadcast proof fn lemma_rows_of_push(t: Seq<Seq<char>>, w: Seq<char>)
    ensures
        #[trigger] rows_of(t.push(w)) == rows_step(rows_of(t), w),
{
    assert(t.push(w).drop_last() =~= t);
}

/// The nineteen words of the sample element set.
spec fn sample_tokens() -> Seq<Seq<char>> {
    let s = SGP4TLE@;
    seq![
        s.subrange(0, 4), s.subrange(5, 11), s.subrange(12, 13), s.subrange(14, 20),
        s.subrange(21, 27), s.subrange(28, 42), s.subrange(43, 52), s.subrange(53, 60),
        s.subrange(61, 68), s.subrange(69, 70), s.subrange(71, 72), s.subrange(73, 74),
        s.subrange(75, 80), s.subrange(81, 88), s.subrange(89, 97), s.subrange(98, 105),
        s.subrange(106, 113), s.subrange(114, 122), s.subrange(123, 137),
    ]
}

/// The sample element set splits into its words.
proof fn lemma_sample_tokens()
    ensures
        whitespace_tokens(SGP4TLE@) == sample_tokens(),
{
    reveal_strlit(
        "SGP4 (SGP4)\n1 88888U 80081S 80275.98708465 .00073094 13844-3 66816-4 0 6\n2 88888 72.8435 115.9689 0086731 52.6988 110.5714 16.05824718105",
    );
    reveal_with_fuel(no_whitespace_between, 15);
    let s = SGP4TLE@;
    assert(s.len() == 137);
    lemma_tokens_peel_word(s, 0, 4);
    lemma_tokens_peel_word(s, 5, 11);
    lemma_tokens_peel_word(s, 12, 13);
    lemma_tokens_peel_word(s, 14, 20);
    lemma_tokens_peel_word(s, 21, 27);
    lemma_tokens_peel_word(s, 28, 42);
    lemma_tokens_peel_word(s, 43, 52);
    lemma_tokens_peel_word(s, 53, 60);
    lemma_tokens_peel_word(s, 61, 68);
    lemma_tokens_peel_word(s, 69, 70);
    lemma_tokens_peel_word(s, 71, 72);
    lemma_tokens_peel_word(s, 73, 74);
    lemma_tokens_peel_word(s, 75, 80);
    lemma_tokens_peel_word(s, 81, 88);
    lemma_tokens_peel_word(s, 89, 97);
    lemma_tokens_peel_word(s, 98, 105);
    lemma_tokens_peel_word(s, 106, 113);
    lemma_tokens_peel_word(s, 114, 122);
    lemma_tokens_last_word(s, 123);
    assert(s.subrange(0, 137) =~= s);
    assert(whitespace_tokens(s) =~= sample_tokens());
}

/// The name and the two rows of the sample element set.
proof fn lemma_sample_rows()
    ensures
        ({
            let t = sample_tokens();
            text_rows(SGP4TLE@) == RowsView {
                name: Seq::<char>::empty() + t[0] + t[1],
                first: seq![t[3], t[4], t[5], t[6], t[7], t[8], t[9], t[10]],
                second: seq![t[12], t[13], t[14], t[15], t[16], t[17], t[18]],
                row: 2,
            }
        }),
{
    broadcast use lemma_rows_of_push;

    reveal_strlit(
        "SGP4 (SGP4)\n1 88888U 80081S 80275.98708465 .00073094 13844-3 66816-4 0 6\n2 88888 72.8435 115.9689 0086731 52.6988 110.5714 16.05824718105",
    );
    lemma_sample_tokens();
    let t = sample_tokens();
    // the one-character words: the two row markers and two columns
    assert(t[2] =~= seq!['1']);
    assert(t[9] =~= seq!['0']);
    assert(t[10] =~= seq!['6']);
    assert(t[11] =~= seq!['2']);
    assert(seq!['0'][0] != seq!['2'][0] && seq!['6'][0] != seq!['2'][0]);
    assert(rows_of(Seq::<Seq<char>>::empty()) == RowsView {
        name: Seq::<char>::empty(),
        first: Seq::<Seq<char>>::empty(),
        second: Seq::<Seq<char>>::empty(),
        row: 0,
    });
    let pushed = Seq::<Seq<char>>::empty().push(t[0]).push(t[1]).push(t[2]).push(t[3]).push(t[4])
        .push(t[5]).push(t[6]).push(t[7]).push(t[8]).push(t[9]).push(t[10]).push(t[11]).push(t[12])
        .push(t[13]).push(t[14]).push(t[15]).push(t[16]).push(t[17]).push(t[18]);
    assert(pushed =~= t);
    assert(text_rows(SGP4TLE@).first =~= seq![t[3], t[4], t[5], t[6], t[7], t[8], t[9], t[10]]);
    assert(text_rows(SGP4TLE@).second =~= seq![t[12], t[13], t[14], t[15], t[16], t[17], t[18]]);
}

/// The sample element set can be read.
pub proof fn lemma_sample_text_is_readable()
    ensures
        tle_text(SGP4TLE@) is Ok,
{
    reveal_strlit(
        "SGP4 (SGP4)\n1 88888U 80081S 80275.98708465 .00073094 13844-3 66816-4 0 6\n2 88888 72.8435 115.9689 0086731 52.6988 110.5714 16.05824718105",
    );
    reveal_with_fuel(digits_between, 12);
    lemma_sample_rows();
    let s = SGP4TLE@;
    assert(s.len() == 137);
    let t = sample_tokens();
    let r = text_rows(s);
    // first row: epoch, first derivative, two exponent fields, two integers
    lemma_point_decimal_between(s, 28, 33, 42);
    lemma_zero_prefixed_decimal(s, 43, 52);
    lemma_exponent_field_between(s, 53, 60);
    lemma_exponent_field_between(s, 61, 68);
    lemma_single_digit_u32(t[9]);
    lemma_single_digit_u32(t[10]);
    // second row: inclination, node, eccentricity, perigee, anomaly, mean motion
    lemma_point_decimal_between(s, 81, 83, 88);
    lemma_point_decimal_between(s, 89, 92, 97);
    lemma_zero_point_prefixed(s, 98, 105);
    lemma_point_decimal_between(s, 106, 108, 113);
    lemma_point_decimal_between(s, 114, 117, 122);
    assert(t[18].take(10) =~= s.subrange(123, 133));
    lemma_point_decimal_between(s, 123, 125, 133);
    assert(columns_readable(r.first, r.second));
}

} // verus!
