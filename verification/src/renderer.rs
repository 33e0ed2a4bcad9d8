//! The control state of the ground-track viewer: the element set shown, the
//! texts the user edits, and what pressing "Update graph" and moving the
//! time slider do to it.  Drawing and the propagation of the orbit are left
//! to the caller, which recomputes the points when `update_graph` says so.
use vstd::prelude::*;
use crate::numeric::{i32_text, parse_i32, decimal_string, decimal_text};
use crate::sample::{SGP4TLE, lemma_sample_text_is_readable};
use crate::tle::{TLE, TleParseError, TleView, tle_text, text_to_tle, validate_tle, validation_text, lemma_validation_accepts_readable_texts};

verus! {

/// Minutes after the epoch up to which the orbit is drawn at start.
pub const DEFAULT_T_UNTIL: i32 = 900;

pub struct Renderer {
    /// Minutes after the epoch up to which the orbit is drawn.
    pub t_until: i32,
    /// The element set whose orbit is drawn.
    pub tle: TLE,
    /// The TLE text in the input field.
    pub tle_input: String,
    /// The text of the "minutes" input.
    pub t_until_str: String,
    /// What is wrong with the last TLE text submitted, or empty.
    pub tle_validation_error: String,
    /// The minute selected on the time slider.
    pub t_since: i32,
}

/// The point that the panels describe: the last of the first `t_since`
/// points, where `t_since` is taken as a `usize` as the slider's value is.
pub open spec fn shown_point(t_since: i32, n_points: nat) -> Option<nat> {
    let k = t_since as usize as nat;
    if k == 0 || n_points == 0 {
        None
    } else if k < n_points {
        Some((k - 1) as nat)
    } else {
        Some((n_points - 1) as nat)
    }
}

/// The point shown for a slider minute `t`: none at minute 0 or without
/// points, the `t`-th point (index `t - 1`) while there are more points
/// than minutes, and the last point after that.  So later minutes never
/// show earlier points.
pub proof fn lemma_shown_point_follows_slider(t: i32, n: nat)
    requires
        0 <= t,
        n <= usize::MAX,
    ensures
        t == 0 || n == 0 ==> shown_point(t, n) is None,
        0 < t < n ==> shown_point(t, n) == Some((t - 1) as nat),
        0 < n <= t ==> shown_point(t, n) == Some((n - 1) as nat),
{
    assert(t as usize as nat == t as nat);
}

/// Moving the slider forward never moves the shown point back.
pub proof fn lemma_shown_point_monotone(t1: i32, t2: i32, n: nat)
    requires
        0 < t1 <= t2,
        0 < n <= usize::MAX,
    ensures
        shown_point(t1, n).unwrap() <= shown_point(t2, n).unwrap(),
{
    lemma_shown_point_follows_slider(t1, n);
    lemma_shown_point_follows_slider(t2, n);
}

impl Renderer {
    /// The viewer at start: the sample element set, drawn for 900 minutes,
    /// with the slider at a tenth of that.
    pub fn new() -> (rd: Renderer)
        ensures
            rd.t_until == DEFAULT_T_UNTIL,
            rd.t_since == DEFAULT_T_UNTIL / 10,
            rd.tle_input@ == SGP4TLE@,
            rd.t_until_str@ == decimal_text(DEFAULT_T_UNTIL as nat),
            rd.tle_validation_error@ == Seq::<char>::empty(),
            tle_text(SGP4TLE@) == Ok::<TleView, TleParseError>(rd.tle@),
    {
        let t_until = DEFAULT_T_UNTIL;
        let t_since = t_until / 10;
        let tle_input = SGP4TLE.to_owned();
        proof {
            lemma_sample_text_is_readable();
        }
        let tle = text_to_tle(&tle_input);
        Renderer {
            t_until,
            tle,
            tle_input,
            t_until_str: decimal_string(t_until as u64),
            tle_validation_error: String::new(),
            t_since,
        }
    }

    /// What the "Update graph" button does.  Where the minutes text is a
    /// number it becomes the drawing limit, the TLE text is validated, and
    /// the points must be computed anew (the result is `true`); a valid
    /// text replaces the element set and clears the error, an invalid one
    /// leaves the element set and shows why.  Where the minutes text is not
    /// a number nothing changes.
    pub fn update_graph(&mut self) -> (recompute: bool)
        ensures
            match i32_text(old(self).t_until_str@) {
                None => !recompute && *final(self) == *old(self),
                Some(t) => {
                    let v = validation_text(old(self).tle_input@);
                    &&& recompute
                    &&& final(self).t_until == t
                    &&& final(self).tle_input == old(self).tle_input
                    &&& final(self).t_until_str == old(self).t_until_str
                    &&& final(self).t_since == old(self).t_since
                    &&& v.0 ==> final(self).tle_validation_error@ == Seq::<char>::empty()
                        && tle_text(old(self).tle_input@) == Ok::<TleView, TleParseError>(
                        final(self).tle@,
                    )
                    &&& !v.0 ==> final(self).tle_validation_error@ == v.1 && final(self).tle
                        == old(self).tle
                },
            },
    {
        let t_until = match parse_i32(self.t_until_str.as_str()) {
            Some(t) => t,
            None => {
                return false;
            },
        };
        self.t_until = t_until;
        let validation = validate_tle(&self.tle_input);
        if validation.valid {
            proof {
                lemma_validation_accepts_readable_texts(self.tle_input@);
            }
            self.tle_validation_error = String::new();
            self.tle = text_to_tle(&self.tle_input);
        } else {
            self.tle_validation_error = validation.message;
        }
        true
    }

    /// The index of the point that the panels describe among `n_points`
    /// computed points, `None` where there is none.
    pub fn current_point_index(&self, n_points: usize) -> (r: Option<usize>)
        ensures
            match r {
                Some(i) => shown_point(self.t_since, n_points as nat) == Some(i as nat),
                None => shown_point(self.t_since, n_points as nat) is None,
            },
    {
        let k = self.t_since as usize;
        if k == 0 || n_points == 0 {
            None
        } else if k < n_points {
            Some(k - 1)
        } else {
            Some(n_points - 1)
        }
    }
}

} // verus!
