//! Days of the week, numbered Monday = 0 through Sunday = 6, with the cyclic
//! successor used when the schedule search wraps past the end of the week.

use vstd::prelude::*;

verus! {

#[derive(Clone, Copy, Debug, PartialEq, Eq, Structural)]
pub enum Weekday {
    Mon,
    Tue,
    Wed,
    Thu,
    Fri,
    Sat,
    Sun,
}

/// The position of a day within the week, Monday first.
pub open spec fn day_num(d: Weekday) -> int {
    match d {
        Weekday::Mon => 0,
        Weekday::Tue => 1,
        Weekday::Wed => 2,
        Weekday::Thu => 3,
        Weekday::Fri => 4,
        Weekday::Sat => 5,
        Weekday::Sun => 6,
    }
}

/// The day whose position within the week is `n`.
pub open spec fn day_of_num(n: int) -> Weekday {
    if n == 0 {
        Weekday::Mon
    } else if n == 1 {
        Weekday::Tue
    } else if n == 2 {
        Weekday::Wed
    } else if n == 3 {
        Weekday::Thu
    } else if n == 4 {
        Weekday::Fri
    } else if n == 5 {
        Weekday::Sat
    } else {
        Weekday::Sun
    }
}

/// The weekday named by a three-letter string, if the string names one.
pub open spec fn weekday_of_str(s: Seq<char>) -> Option<Weekday> {
    if s == "Mon"@ {
        Some(Weekday::Mon)
    } else if s == "Tue"@ {
        Some(Weekday::Tue)
    } else if s == "Wed"@ {
        Some(Weekday::Wed)
    } else if s == "Thu"@ {
        Some(Weekday::Thu)
    } else if s == "Fri"@ {
        Some(Weekday::Fri)
    } else if s == "Sat"@ {
        Some(Weekday::Sat)
    } else if s == "Sun"@ {
        Some(Weekday::Sun)
    } else {
        None
    }
}

impl Weekday {
    /// This day's position within the week, Monday first.
    pub fn number(self) -> (n: usize)
        ensures
            n == day_num(self),
            n < 7,
    {
        match self {
            Weekday::Mon => 0,
            Weekday::Tue => 1,
            Weekday::Wed => 2,
            Weekday::Thu => 3,
            Weekday::Fri => 4,
            Weekday::Sat => 5,
            Weekday::Sun => 6,
        }
    }

    /// The day at position `n` within the week.
    pub fn from_number(n: usize) -> (d: Weekday)
        requires
            n < 7,
        ensures
            d == day_of_num(n as int),
    {
        if n == 0 {
            Weekday::Mon
        } else if n == 1 {
            Weekday::Tue
        } else if n == 2 {
            Weekday::Wed
        } else if n == 3 {
            Weekday::Thu
        } else if n == 4 {
            Weekday::Fri
        } else if n == 5 {
            Weekday::Sat
        } else {
            Weekday::Sun
        }
    }

    /// The day after this one, wrapping from Sunday back to Monday.
    pub fn succ(self) -> (d: Weekday)
        ensures
            day_num(d) == (day_num(self) + 1) % 7,
    {
        match self {
            Weekday::Mon => Weekday::Tue,
            Weekday::Tue => Weekday::Wed,
            Weekday::Wed => Weekday::Thu,
            Weekday::Thu => Weekday::Fri,
            Weekday::Fri => Weekday::Sat,
            Weekday::Sat => Weekday::Sun,
            Weekday::Sun => Weekday::Mon,
        }
    }
}

/// Equal character sequences of equal length make equal strings.
pub(crate) fn str_eq(a: &str, b: &str) -> (r: bool)
    ensures
        r == (a@ == b@),
{
    let a_len = a.unicode_len();
    let b_len = b.unicode_len();
    if a_len != b_len {
        return false;
    }
    let mut i: usize = 0;
    while i < a_len
        invariant
            i <= a_len,
            a_len == a@.len(),
            a_len == b@.len(),
            forall|j: int| 0 <= j < i ==> a@[j] == b@[j],
        decreases a_len - i,
    {
        if a.get_char(i) != b.get_char(i) {
            return false;
        }
        i = i + 1;
    }
    proof {
        assert(a@ =~= b@);
    }
    true
}

/// Parses a three-letter weekday name; any other string is rejected.
pub fn get_weekday(d: &str) -> (r: Result<Weekday, String>)
    ensures
        weekday_of_str(d@) is Some ==> r == Ok::<Weekday, String>(weekday_of_str(d@).unwrap()),
        weekday_of_str(d@) is None ==> (r matches Err(e) && e@ == "Invalid weekday input"@),
{
    if str_eq(d, "Mon") {
        Ok(Weekday::Mon)
    } else if str_eq(d, "Tue") {
        Ok(Weekday::Tue)
    } else if str_eq(d, "Wed") {
        Ok(Weekday::Wed)
    } else if str_eq(d, "Thu") {
        Ok(Weekday::Thu)
    } else if str_eq(d, "Fri") {
        Ok(Weekday::Fri)
    } else if str_eq(d, "Sat") {
        Ok(Weekday::Sat)
    } else if str_eq(d, "Sun") {
        Ok(Weekday::Sun)
    } else {
        Err("Invalid weekday input".to_owned())
    }
}

} // verus!
