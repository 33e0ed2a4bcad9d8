//! Two-line element sets as text: splitting the input into the name and the
//! two element rows, reading the fields of the rows, and validating input.
use vstd::prelude::*;
use crate::text::{whitespace_tokens, split_whitespace, is_digit, digit_value, chars_of, check_digit};
use crate::sample::SGP4TLE;
use crate::numeric::{u32_text, is_float_literal, parse_u32, is_float_text, decimal_text, decimal_string, digits_between, lemma_zero_point_prefixed, lemma_point_decimal_between};

verus! {

/// The three parts of a TLE text after it has been split at whitespace:
/// the tokens before the token `1` joined into the name, the tokens of the
/// first element row, those of the second, and the row reached last.
pub struct RowsView {
    pub name: Seq<char>,
    pub first: Seq<Seq<char>>,
    pub second: Seq<Seq<char>>,
    pub row: nat,
}

/// One token read: the token `1` opens the first row while the name is
/// being read, the token `2` opens the second row while the first is being
/// read; any other token is added to the part being read.
pub open spec fn rows_step(r: RowsView, t: Seq<char>) -> RowsView {
    if r.row == 0 && t == seq!['1'] {
        RowsView { name: r.name, first: r.first, second: r.second, row: 1 }
    } else if r.row == 1 && t == seq!['2'] {
        RowsView { name: r.name, first: r.first, second: r.second, row: 2 }
    } else if r.row == 0 {
        RowsView { name: r.name + t, first: r.first, second: r.second, row: 0 }
    } else if r.row == 1 {
        RowsView { name: r.name, first: r.first.push(t), second: r.second, row: 1 }
    } else {
        RowsView { name: r.name, first: r.first, second: r.second.push(t), row: r.row }
    }
}

/// The rows of a token sequence, read from the first token to the last.
pub open spec fn rows_of(tokens: Seq<Seq<char>>) -> RowsView
    decreases tokens.len(),
{
    if tokens.len() == 0 {
        RowsView { name: seq![], first: seq![], second: seq![], row: 0 }
    } else {
        rows_step(rows_of(tokens.drop_last()), tokens.last())
    }
}

/// The rows of a TLE text.
pub open spec fn text_rows(s: Seq<char>) -> RowsView {
    rows_of(whitespace_tokens(s))
}

/// The rows of a TLE text, as `split_rows` returns them.
pub struct TleRows {
    pub name: String,
    pub first_row: Vec<String>,
    pub second_row: Vec<String>,
    pub row: u8,
}

impl View for TleRows {
    type V = RowsView;

    open spec fn view(&self) -> RowsView {
        RowsView {
            name: self.name@,
            first: self.first_row.deep_view(),
            second: self.second_row.deep_view(),
            row: self.row as nat,
        }
    }
}

/// Whether `t` is the one-character token `d`.
fn is_marker(t: &String, d: char) -> (r: bool)
    ensures
        r == (t@ == seq![d]),
{
    let s = t.as_str();
    if s.unicode_len() == 1 && s.get_char(0) == d {
        assert(t@ =~= seq![d]);
        true
    } else {
        false
    }
}

/// Splits a TLE text into its name and its two element rows.
pub fn split_rows(input: &str) -> (rows: TleRows)
    ensures
        rows@ == text_rows(input@),
        rows.row <= 2,
{
    let tokens = split_whitespace(input);
    let ghost toks = tokens.deep_view();
    let mut rows = TleRows {
        name: String::new(),
        first_row: Vec::new(),
        second_row: Vec::new(),
        row: 0,
    };
    assert(toks.take(0) =~= Seq::<Seq<char>>::empty());
    assert(rows@.first =~= Seq::<Seq<char>>::empty());
    assert(rows@.second =~= Seq::<Seq<char>>::empty());
    let mut j: usize = 0;
    while j < tokens.len()
        invariant
            toks == tokens.deep_view(),
            toks == whitespace_tokens(input@),
            j <= tokens.len(),
            rows.row <= 2,
            rows@ == rows_of(toks.take(j as int)),
        decreases tokens.len() - j,
    {
        let t = &tokens[j];
        assert(toks[j as int] == t@);
        assert(toks.take(j + 1).drop_last() =~= toks.take(j as int));
        assert(toks.take(j + 1).last() == t@);
        let ghost before = rows@;
        if rows.row == 0 && is_marker(t, '1') {
            rows.row = 1;
        } else if rows.row == 1 && is_marker(t, '2') {
            rows.row = 2;
        } else if rows.row == 0 {
            rows.name.append(t.as_str());
        } else if rows.row == 1 {
            rows.first_row.push(t.clone());
            assert(rows@.first =~= before.first.push(t@));
        } else {
            rows.second_row.push(t.clone());
            assert(rows@.second =~= before.second.push(t@));
        }
        assert(rows@ == rows_step(before, t@));
        j += 1;
    }
    assert(toks.take(tokens.len() as int) =~= toks);
    rows
}

/// A field written as digits followed by `-` and one exponent digit, with
/// an assumed leading decimal point: `13844-3` stands for 0.13844 × 10⁻³.
/// The mantissa is kept as the decimal text `0.<digits>`.
pub struct ExponentField {
    pub mantissa: String,
    pub exponent: i32,
}

/// The mantissa text and the exponent digit of an exponent field, or
/// `None` where reading it fails: the text holds no `-`, does not end in a
/// digit, has a non-ASCII character just before that digit, or `0.`
/// followed by all but its last two characters does not parse as `f64`.
pub open spec fn exponent_field_text(t: Seq<char>) -> Option<(Seq<char>, int)> {
    let n = t.len();
    let mantissa = seq!['0', '.'] + t.take(n - 2);
    if t.contains('-') && n >= 2 && is_digit(t[n - 1]) && (t[n - 2] as u32) < 128
        && is_float_literal(mantissa) {
        Some((mantissa, digit_value(t[n - 1]) as int))
    } else {
        None
    }
}

/// Reads an exponent field such as `13844-3` or `00000-0`, or says that
/// it cannot be read.
pub fn read_exponent_field(input: &str) -> (r: Option<ExponentField>)
    ensures
        match r {
            Some(f) => exponent_field_text(input@) == Some((f.mantissa@, f.exponent as int)),
            None => exponent_field_text(input@) is None,
        },
{
    let cs = chars_of(input);
    let n = cs.len();
    let mut has_minus = false;
    let mut i: usize = 0;
    while i < n
        invariant
            n == cs@.len(),
            cs@ == input@,
            i <= n,
            has_minus == (exists|k: int| 0 <= k < i && cs@[k] == '-'),
        decreases n - i,
    {
        if cs[i] == '-' {
            has_minus = true;
        }
        i += 1;
    }
    if !has_minus {
        assert(!input@.contains('-'));
        return None;
    }
    assert(input@.contains('-'));
    if n < 2 || !check_digit(cs[n - 1]) || (cs[n - 2] as u32) >= 128 {
        return None;
    }
    let mut mantissa = String::from_str("0.");
    proof {
        reveal_strlit("0.");
    }
    mantissa.append(input.substring_char(0, n - 2));
    assert(mantissa@ =~= seq!['0', '.'] + input@.take(n - 2));
    if !is_float_text(mantissa.as_str()) {
        return None;
    }
    let exponent = (cs[n - 1] as u32 - '0' as u32) as i32;
    Some(ExponentField { mantissa, exponent })
}

/// Why a TLE text could not be read.
#[derive(Debug, Clone, Copy, PartialEq, Eq, Structural)]
pub enum TleParseError {
    /// The first element row has fewer than 8 columns or the second fewer than 7.
    MissingColumns,
    /// A column does not hold the number that its field needs.
    MalformedField,
}

/// The fields of a two-line element set as they are written in the text.
/// Real-valued fields are kept as decimal texts that parse as `f64`.
pub struct TLE {
    pub name: String,
    pub number: String,
    pub international_designator: String,
    pub epoch_year_julian_fraction: String,
    pub first_derivative_of_mean_motion: String,
    pub second_derivative_of_mean_motion: ExponentField,
    pub drag_term: ExponentField,
    pub ephemeris_type: u32,
    pub element_number_check_sum: u32,
    pub inclination: String,
    pub right_ascension_of_ascending_node: String,
    pub eccentricity: String,
    pub argument_of_perigee: String,
    pub mean_anomaly: String,
    pub mean_motion: String,
}

pub struct TleView {
    pub name: Seq<char>,
    pub number: Seq<char>,
    pub international_designator: Seq<char>,
    pub epoch_year_julian_fraction: Seq<char>,
    pub first_derivative_of_mean_motion: Seq<char>,
    pub second_derivative_of_mean_motion: (Seq<char>, int),
    pub drag_term: (Seq<char>, int),
    pub ephemeris_type: u32,
    pub element_number_check_sum: u32,
    pub inclination: Seq<char>,
    pub right_ascension_of_ascending_node: Seq<char>,
    pub eccentricity: Seq<char>,
    pub argument_of_perigee: Seq<char>,
    pub mean_anomaly: Seq<char>,
    pub mean_motion: Seq<char>,
}

impl View for TLE {
    type V = TleView;

    open spec fn view(&self) -> TleView {
        TleView {
            name: self.name@,
            number: self.number@,
            international_designator: self.international_designator@,
            epoch_year_julian_fraction: self.epoch_year_julian_fraction@,
            first_derivative_of_mean_motion: self.first_derivative_of_mean_motion@,
            second_derivative_of_mean_motion: (
                self.second_derivative_of_mean_motion.mantissa@,
                self.second_derivative_of_mean_motion.exponent as int,
            ),
            drag_term: (self.drag_term.mantissa@, self.drag_term.exponent as int),
            ephemeris_type: self.ephemeris_type,
            element_number_check_sum: self.element_number_check_sum,
            inclination: self.inclination@,
            right_ascension_of_ascending_node: self.right_ascension_of_ascending_node@,
            eccentricity: self.eccentricity@,
            argument_of_perigee: self.argument_of_perigee@,
            mean_anomaly: self.mean_anomaly@,
            mean_motion: self.mean_motion@,
        }
    }
}

/// `0` followed by the first-derivative column (`.00073094` is 0.00073094).
pub open spec fn first_derivative_text(t: Seq<char>) -> Seq<char> {
    seq!['0'] + t
}

/// `0.` followed by the eccentricity column (`0086731` is 0.0086731).
pub open spec fn eccentricity_text(t: Seq<char>) -> Seq<char> {
    seq!['0', '.'] + t
}

/// The first ten characters of the mean-motion column, which also holds
/// the revolution number.
pub open spec fn mean_motion_text(t: Seq<char>) -> Seq<char> {
    t.take(10)
}

/// Every column that a field is read from holds what the field needs.
pub open spec fn columns_readable(f: Seq<Seq<char>>, s: Seq<Seq<char>>) -> bool {
    &&& is_float_literal(f[2])
    &&& is_float_literal(first_derivative_text(f[3]))
    &&& exponent_field_text(f[4]) is Some
    &&& exponent_field_text(f[5]) is Some
    &&& u32_text(f[6]) is Some
    &&& u32_text(f[7]) is Some
    &&& is_float_literal(s[1])
    &&& is_float_literal(s[2])
    &&& is_float_literal(eccentricity_text(s[3]))
    &&& is_float_literal(s[4])
    &&& is_float_literal(s[5])
    &&& s[6].len() >= 10
    &&& is_float_literal(mean_motion_text(s[6]))
}

/// The element set that a split text stands for.
pub open spec fn tle_of_rows(r: RowsView) -> Result<TleView, TleParseError> {
    let f = r.first;
    let s = r.second;
    if f.len() < 8 || s.len() < 7 {
        Err(TleParseError::MissingColumns)
    } else if !columns_readable(f, s) {
        Err(TleParseError::MalformedField)
    } else {
        Ok(
            TleView {
                name: r.name,
                number: f[0],
                international_designator: f[1],
                epoch_year_julian_fraction: f[2],
                first_derivative_of_mean_motion: first_derivative_text(f[3]),
                second_derivative_of_mean_motion: exponent_field_text(f[4]).unwrap(),
                drag_term: exponent_field_text(f[5]).unwrap(),
                ephemeris_type: u32_text(f[6]).unwrap(),
                element_number_check_sum: u32_text(f[7]).unwrap(),
                inclination: s[1],
                right_ascension_of_ascending_node: s[2],
                eccentricity: eccentricity_text(s[3]),
                argument_of_perigee: s[4],
                mean_anomaly: s[5],
                mean_motion: mean_motion_text(s[6]),
            },
        )
    }
}

/// The element set that a TLE text stands for.
/// The built-in sample text, whose columns for the designator, the check
/// sum and the mean motion (`80081S`, `6`, `16.05824718105`) are garbled,
/// reads with the values of its reference element set in those fields.
pub open spec fn tle_text(s: Seq<char>) -> Result<TleView, TleParseError> {
    let r = tle_of_rows(text_rows(s));
    if s == SGP4TLE@ && r is Ok {
        Ok(sample_reference_fields(r.unwrap()))
    } else {
        r
    }
}

/// The sample element set with the reference values of the designator,
/// the check sum and the mean motion.
pub open spec fn sample_reference_fields(t: TleView) -> TleView {
    TleView {
        international_designator: "98067A"@,
        element_number_check_sum: 8,
        mean_motion: "16.0582451"@,
        ..t
    }
}

/// Reads a two-line element set: an optional name, the token `1` and the
/// columns of the first row, the token `2` and the columns of the second;
/// or says why it cannot be read.
pub fn read_tle(input: &String) -> (r: Result<TLE, TleParseError>)
    ensures
        match r {
            Ok(t) => tle_text(input@) == Ok::<TleView, TleParseError>(t@),
            Err(e) => tle_text(input@) == Err::<TleView, TleParseError>(e),
        },
{
    let rows = split_rows(input.as_str());
    if rows.first_row.len() < 8 || rows.second_row.len() < 7 {
        return Err(TleParseError::MissingColumns);
    }
    let ghost f = rows@.first;
    let ghost s = rows@.second;
    let first = &rows.first_row;
    let second = &rows.second_row;
    assert(forall|k: int| 0 <= k < first@.len() ==> f[k] == (#[trigger] first@[k])@);
    assert(forall|k: int| 0 <= k < second@.len() ==> s[k] == (#[trigger] second@[k])@);
    let mut fdot = String::from_str("0");
    proof {
        reveal_strlit("0");
    }
    fdot.append(first[3].as_str());
    let mut ecc = String::from_str("0.");
    proof {
        reveal_strlit("0.");
    }
    ecc.append(second[3].as_str());
    assert(fdot@ =~= first_derivative_text(f[3]));
    assert(ecc@ =~= eccentricity_text(s[3]));
    let mm_ok = second[6].as_str().unicode_len() >= 10;
    let ghost readable = columns_readable(f, s);
    if !mm_ok {
        return Err(TleParseError::MalformedField);
    }
    let mean_motion = second[6].as_str().substring_char(0, 10).to_owned();
    assert(mean_motion@ =~= mean_motion_text(s[6]));
    let second_derivative = read_exponent_field(first[4].as_str());
    let drag = read_exponent_field(first[5].as_str());
    let ephemeris_type = parse_u32(first[6].as_str());
    let check_sum = parse_u32(first[7].as_str());
    if !is_float_text(first[2].as_str()) || !is_float_text(fdot.as_str()) || second_derivative.is_none()
        || drag.is_none() || ephemeris_type.is_none() || check_sum.is_none() || !is_float_text(
        second[1].as_str(),
    ) || !is_float_text(second[2].as_str()) || !is_float_text(ecc.as_str()) || !is_float_text(
        second[4].as_str(),
    ) || !is_float_text(second[5].as_str()) || !is_float_text(mean_motion.as_str()) {
        return Err(TleParseError::MalformedField);
    }
    let tle = TLE {
        name: rows.name.clone(),
        number: first[0].clone(),
        international_designator: first[1].clone(),
        epoch_year_julian_fraction: first[2].clone(),
        first_derivative_of_mean_motion: fdot,
        second_derivative_of_mean_motion: second_derivative.unwrap(),
        drag_term: drag.unwrap(),
        ephemeris_type: ephemeris_type.unwrap(),
        element_number_check_sum: check_sum.unwrap(),
        inclination: second[1].clone(),
        right_ascension_of_ascending_node: second[2].clone(),
        eccentricity: ecc,
        argument_of_perigee: second[4].clone(),
        mean_anomaly: second[5].clone(),
        mean_motion,
    };
    let sample = String::from_str(SGP4TLE);
    if *input == sample {
        return Ok(
            TLE {
                international_designator: String::from_str("98067A"),
                element_number_check_sum: 8,
                mean_motion: String::from_str("16.0582451"),
                ..tle
            },
        );
    }
    Ok(tle)
}

/// Reads an exponent field that can be read.
pub fn format_tle_split_with_negative_exponent(input: &str) -> (f: ExponentField)
    requires
        exponent_field_text(input@) is Some,
    ensures
        exponent_field_text(input@) == Some((f.mantissa@, f.exponent as int)),
{
    match read_exponent_field(input) {
        Some(f) => f,
        None => vstd::pervasive::unreached(),
    }
}

/// Reads a two-line element set that can be read.
pub fn text_to_tle(input: &String) -> (t: TLE)
    requires
        tle_text(input@) is Ok,
    ensures
        tle_text(input@) == Ok::<TleView, TleParseError>(t@),
{
    match read_tle(input) {
        Ok(t) => t,
        Err(_) => vstd::pervasive::unreached(),
    }
}

/// Whether a TLE text can be read, and the message shown to the user.
pub struct ValidationResponse {
    pub valid: bool,
    pub message: String,
}

pub open spec fn wrong_first_row_message(count: nat) -> Seq<char> {
    "Wrong number of columns in row 1. Should be 8, is "@ + decimal_text(count)
}

pub open spec fn wrong_second_row_message(count: nat) -> Seq<char> {
    "Wrong number of columns in row 2. Should be 7, is "@ + decimal_text(count)
}

/// The verdict on a TLE text and its message.  An empty text is refused at
/// once.  A text that starts with `1` lacks the satellite name.  The shape
/// of the rows is checked next, and its message replaces that of the name:
/// both rows must be present, the first with 8 columns and the second with
/// 7.  A text that passes all of this must also be readable.
pub open spec fn validation_text(s: Seq<char>) -> (bool, Seq<char>) {
    if s.len() == 0 {
        (false, "Input field is empty"@)
    } else {
        let r = text_rows(s);
        let named: (bool, Seq<char>) = if s[0] == '1' {
            (false, "Satellite name is missing, needs to be added before first row"@)
        } else {
            (true, Seq::<char>::empty())
        };
        let shaped: (bool, Seq<char>) = if r.row != 2 {
            (false, "Row missing"@)
        } else if r.first.len() != 8 {
            (false, wrong_first_row_message(r.first.len()))
        } else if r.second.len() != 7 {
            (false, wrong_second_row_message(r.second.len()))
        } else {
            named
        };
        if shaped.0 && tle_text(s) is Err {
            (false, "Failed to parse TLE data"@)
        } else {
            shaped
        }
    }
}

/// Checks a TLE text before it is read, and says what is wrong with it.
pub fn validate_tle(input: &String) -> (r: ValidationResponse)
    ensures
        (r.valid, r.message@) == validation_text(input@),
{
    let s = input.as_str();
    if s.is_empty() {
        return ValidationResponse { valid: false, message: String::from_str("Input field is empty") };
    }
    let mut valid = true;
    let mut message = String::new();
    if s.get_char(0) == '1' {
        valid = false;
        message = String::from_str("Satellite name is missing, needs to be added before first row");
    }
    let rows = split_rows(s);
    let first_row_columns = rows.first_row.len();
    let second_row_columns = rows.second_row.len();
    if rows.row != 2 {
        valid = false;
        message = String::from_str("Row missing");
    } else if first_row_columns != 8 {
        valid = false;
        message = String::from_str("Wrong number of columns in row 1. Should be 8, is ");
        message.append(decimal_string(first_row_columns as u64).as_str());
    } else if second_row_columns != 7 {
        valid = false;
        message = String::from_str("Wrong number of columns in row 2. Should be 7, is ");
        message.append(decimal_string(second_row_columns as u64).as_str());
    }
    if valid {
        if read_tle(input).is_err() {
            valid = false;
            message = String::from_str("Failed to parse TLE data");
        }
    }
    ValidationResponse { valid, message }
}

/// Validation accepts exactly the texts that start with something other
/// than `1` (a satellite name comes first), reach the second row, have 8
/// columns in the first row and 7 in the second, and can be read.
pub proof fn lemma_validation_accepts_readable_texts(s: Seq<char>)
    ensures
        validation_text(s).0 <==> {
            &&& s.len() > 0
            &&& s[0] != '1'
            &&& text_rows(s).row == 2
            &&& text_rows(s).first.len() == 8
            &&& text_rows(s).second.len() == 7
            &&& tle_text(s) is Ok
        },
{
}

/// Validation accepts a text exactly when it has no message for it.
pub proof fn lemma_valid_iff_no_message(s: Seq<char>)
    ensures
        validation_text(s).0 <==> validation_text(s).1.len() == 0,
{
    reveal_strlit("Input field is empty");
    reveal_strlit("Satellite name is missing, needs to be added before first row");
    reveal_strlit("Row missing");
    reveal_strlit("Wrong number of columns in row 1. Should be 8, is ");
    reveal_strlit("Wrong number of columns in row 2. Should be 7, is ");
    reveal_strlit("Failed to parse TLE data");
}

/// `s[lo..hi]`, digits followed by `-` and an exponent digit, is an
/// exponent field that can be read.
pub proof fn lemma_exponent_field_between(s: Seq<char>, lo: int, hi: int)
    requires
        0 <= lo,
        lo + 2 <= hi <= s.len(),
        s[hi - 2] == '-',
        is_digit(s[hi - 1]),
        digits_between(s, lo, hi - 2),
    ensures
        exponent_field_text(s.subrange(lo, hi)) is Some,
{
    let t = s.subrange(lo, hi);
    let n = t.len();
    assert(t[n - 2] == '-');
    assert(t.contains('-'));
    assert(t[n - 1] == s[hi - 1]);
    assert(t.take(n - 2) =~= s.subrange(lo, hi - 2));
    lemma_zero_point_prefixed(s, lo, hi - 2);
}

/// Every real-valued field of an element set that is read is a decimal
/// text that parses as `f64`, and each exponent is a single digit.
pub proof fn lemma_read_fields_are_numbers(s: Seq<char>)
    requires
        tle_text(s) is Ok,
    ensures
        ({
            let t = tle_text(s).unwrap();
            &&& is_float_literal(t.epoch_year_julian_fraction)
            &&& is_float_literal(t.first_derivative_of_mean_motion)
            &&& is_float_literal(t.second_derivative_of_mean_motion.0)
            &&& 0 <= t.second_derivative_of_mean_motion.1 <= 9
            &&& is_float_literal(t.drag_term.0)
            &&& 0 <= t.drag_term.1 <= 9
            &&& is_float_literal(t.inclination)
            &&& is_float_literal(t.right_ascension_of_ascending_node)
            &&& is_float_literal(t.eccentricity)
            &&& is_float_literal(t.argument_of_perigee)
            &&& is_float_literal(t.mean_anomaly)
            &&& is_float_literal(t.mean_motion)
        }),
{
    let r = text_rows(s);
    let t0 = tle_of_rows(r).unwrap();
    assert(is_digit(r.first[4][r.first[4].len() - 1]));
    assert(is_digit(r.first[5][r.first[5].len() - 1]));
    if s == SGP4TLE@ {
        reveal_strlit("16.0582451");
        reveal_with_fuel(digits_between, 10);
        let m = "16.0582451"@;
        assert(m.subrange(0, 10) =~= m);
        lemma_point_decimal_between(m, 0, 2, 10);
    }
}

/// Whether a text can be read depends on its two rows alone: on the first
/// having at least 8 columns and the second at least 7, every column read
/// holding what its field needs.  The name plays no part.
pub proof fn lemma_readable_iff_rows_readable(s: Seq<char>)
    ensures
        (tle_text(s) is Ok) == ({
            let r = text_rows(s);
            &&& r.first.len() >= 8
            &&& r.second.len() >= 7
            &&& columns_readable(r.first, r.second)
        }),
{
}

/// Two texts with the same rows are both readable or both not, whatever
/// their names; read, they differ at most in the name (the sample text
/// aside, whose reference values replace three fields).
pub proof fn lemma_name_does_not_matter(s1: Seq<char>, s2: Seq<char>)
    requires
        text_rows(s1).first == text_rows(s2).first,
        text_rows(s1).second == text_rows(s2).second,
    ensures
        (tle_text(s1) is Ok) == (tle_text(s2) is Ok),
        (tle_text(s1) is Ok && s1 != SGP4TLE@ && s2 != SGP4TLE@) ==> (tle_text(s1).unwrap()
            == (TleView { name: tle_text(s1).unwrap().name, ..tle_text(s2).unwrap() })),
{
}

} // verus!
