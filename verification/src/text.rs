use vstd::prelude::*;

use vstd::string::StringExecFns;

verus! {

/// The character of one decimal digit.
pub open spec fn digit_char(d: int) -> char {
    if d == 0 {
        '0'
    } else if d == 1 {
        '1'
    } else if d == 2 {
        '2'
    } else if d == 3 {
        '3'
    } else if d == 4 {
        '4'
    } else if d == 5 {
        '5'
    } else if d == 6 {
        '6'
    } else if d == 7 {
        '7'
    } else if d == 8 {
        '8'
    } else {
        '9'
    }
}

/// The decimal digits of a number, most significant first, no sign and no
/// leading zero except for the number zero itself.
pub open spec fn dec_digits(n: nat) -> Seq<char>
    decreases n,
{
    if n < 10 {
        seq![digit_char(n as int)]
    } else {
        dec_digits(n / 10).push(digit_char((n % 10) as int))
    }
}

/// The decimal text of an integer: a minus sign ahead of the digits of the
/// magnitude when it is negative.
pub open spec fn dec_text(i: int) -> Seq<char> {
    if i < 0 {
        seq!['-'] + dec_digits((-i) as nat)
    } else {
        dec_digits(i as nat)
    }
}

/// One decimal digit as text.
fn digit_str(d: u64) -> (r: &'static str)
    requires
        d < 10,
    ensures
        r@ =~= seq![digit_char(d as int)],
{
    proof {
        reveal_strlit("0");
        reveal_strlit("1");
        reveal_strlit("2");
        reveal_strlit("3");
        reveal_strlit("4");
        reveal_strlit("5");
        reveal_strlit("6");
        reveal_strlit("7");
        reveal_strlit("8");
        reveal_strlit("9");
    }
    if d == 0 {
        "0"
    } else if d == 1 {
        "1"
    } else if d == 2 {
        "2"
    } else if d == 3 {
        "3"
    } else if d == 4 {
        "4"
    } else if d == 5 {
        "5"
    } else if d == 6 {
        "6"
    } else if d == 7 {
        "7"
    } else if d == 8 {
        "8"
    } else {
        "9"
    }
}

/// Append the decimal digits of a number to a string.
fn push_decimal(n: u64, s: &mut String)
    ensures
        final(s)@ == old(s)@ + dec_digits(n as nat),
    decreases n,
{
    if n >= 10 {
        push_decimal(n / 10, s);
    }
    s.append(digit_str(n % 10));
    proof {
        assert(old(s)@ + dec_digits(n as nat) =~= s@);
    }
}

/// The decimal text of an unsigned number.
pub fn u64_string(n: u64) -> (s: String)
    ensures
        s@ == dec_digits(n as nat),
{
    let mut s = String::new();
    push_decimal(n, &mut s);
    proof {
        assert(Seq::<char>::empty() + dec_digits(n as nat) =~= dec_digits(n as nat));
    }
    s
}

/// The decimal text of a signed number.
pub fn i64_string(i: i64) -> (s: String)
    ensures
        s@ == dec_text(i as int),
{
    proof {
        reveal_strlit("-");
    }
    let mut s = String::new();
    if i < 0 {
        s.append("-");
        let wide: i128 = -(i as i128);
        push_decimal(wide as u64, &mut s);
        proof {
            assert(Seq::<char>::empty() + "-"@ =~= "-"@);
            assert("-"@ =~= seq!['-']);
            assert(seq!['-'] + dec_digits((-(i as int)) as nat) =~= s@);
        }
    } else {
        push_decimal(i as u64, &mut s);
        proof {
            assert(Seq::<char>::empty() + dec_digits(i as nat) =~= dec_digits(i as nat));
        }
    }
    s
}

/// A coarse unit of elapsed time.
#[derive(Clone, Copy, PartialEq, Eq, Structural, Debug)]
pub enum TimeUnit {
    Seconds,
    Minutes,
    Hours,
    Days,
    Months,
    Years,
}

/// The plural noun of a time unit.
pub open spec fn plural_text(u: TimeUnit) -> Seq<char> {
    match u {
        TimeUnit::Seconds => "seconds"@,
        TimeUnit::Minutes => "minutes"@,
        TimeUnit::Hours => "hours"@,
        TimeUnit::Days => "days"@,
        TimeUnit::Months => "months"@,
        TimeUnit::Years => "years"@,
    }
}

/// The singular noun of a time unit: the plural with its final letter gone.
pub open spec fn singular_text(u: TimeUnit) -> Seq<char> {
    plural_text(u).drop_last()
}

impl TimeUnit {
    /// Return the plural noun for this time unit.
    pub fn plural(&self) -> (r: &'static str)
        ensures
            r@ == plural_text(*self),
    {
        match self {
            TimeUnit::Seconds => "seconds",
            TimeUnit::Minutes => "minutes",
            TimeUnit::Hours => "hours",
            TimeUnit::Days => "days",
            TimeUnit::Months => "months",
            TimeUnit::Years => "years",
        }
    }

    /// Return the singular noun for this time unit.
    pub fn singular(self) -> (r: &'static str)
        ensures
            r@ == singular_text(self),
    {
        proof {
            reveal_strlit("seconds");
            reveal_strlit("second");
            reveal_strlit("minutes");
            reveal_strlit("minute");
            reveal_strlit("hours");
            reveal_strlit("hour");
            reveal_strlit("days");
            reveal_strlit("day");
            reveal_strlit("months");
            reveal_strlit("month");
            reveal_strlit("years");
            reveal_strlit("year");
            assert("second"@ =~= "seconds"@.drop_last());
            assert("minute"@ =~= "minutes"@.drop_last());
            assert("hour"@ =~= "hours"@.drop_last());
            assert("day"@ =~= "days"@.drop_last());
            assert("month"@ =~= "months"@.drop_last());
            assert("year"@ =~= "years"@.drop_last());
        }
        match self {
            TimeUnit::Seconds => "second",
            TimeUnit::Minutes => "minute",
            TimeUnit::Hours => "hour",
            TimeUnit::Days => "day",
            TimeUnit::Months => "month",
            TimeUnit::Years => "year",
        }
    }
}

/// A rough moment: some number of units into the past or the future, or
/// right now.
pub enum RoughTime {
    InThePast(TimeUnit, u32),
    JustNow,
    InTheFuture(TimeUnit, u32),
}

/// The English phrase of a rough moment; one unit into the future is worded
/// in the singular.
pub open spec fn rough_time_text(rt: RoughTime) -> Seq<char> {
    match rt {
        RoughTime::InThePast(units, count) => dec_digits(count as nat) + " "@ + plural_text(units)
            + " ago"@,
        RoughTime::JustNow => "just now"@,
        RoughTime::InTheFuture(unit, count) => {
            if count == 1 {
                "1 "@ + singular_text(unit) + " from now"@
            } else {
                dec_digits(count as nat) + " "@ + plural_text(unit) + " from now"@
            }
        },
    }
}

/// Word a rough moment in English.
pub fn rough_time_to_english(rt: RoughTime) -> (s: String)
    ensures
        s@ == rough_time_text(rt),
{
    match rt {
        RoughTime::InThePast(units, count) => {
            let mut s = u64_string(count as u64);
            s.append(" ");
            s.append(units.plural());
            s.append(" ago");
            proof {
                assert(s@ =~= rough_time_text(rt));
            }
            s
        },
        RoughTime::JustNow => {
            let s = String::from_str("just now");
            s
        },
        RoughTime::InTheFuture(unit, count) => {
            if count == 1 {
                let mut s = String::from_str("1 ");
                s.append(unit.singular());
                s.append(" from now");
                proof {
                    assert(s@ =~= rough_time_text(rt));
                }
                s
            } else {
                let mut s = u64_string(count as u64);
                s.append(" ");
                s.append(unit.plural());
                s.append(" from now");
                proof {
                    assert(s@ =~= rough_time_text(rt));
                }
                s
            }
        },
    }
}

/// The greeting for a list of names: nobody, one name, two names, or the
/// span from the first name to the last.
pub open spec fn greeting_text(names: Seq<Seq<char>>) -> Seq<char> {
    if names.len() == 0 {
        "Hello nobody"@
    } else if names.len() == 1 {
        "Hello, "@ + names[0] + "."@
    } else if names.len() == 2 {
        "Hello, "@ + names[0] + " and "@ + names[1]
    } else {
        "Hello, everyone from "@ + names[0] + " to "@ + names[names.len() - 1]
    }
}

/// Compose the greeting for a list of names.
pub fn greet_people(names: &[String]) -> (s: String)
    ensures
        s@ == greeting_text(names@.map_values(|n: String| n@)),
{
    let ghost m = names@.map_values(|n: String| n@);
    if names.len() == 0 {
        let s = String::from_str("Hello nobody");
        proof {
            assert(s@ =~= greeting_text(m));
        }
        s
    } else if names.len() == 1 {
        let mut s = String::from_str("Hello, ");
        s.append(names[0].as_str());
        s.append(".");
        proof {
            assert(s@ =~= greeting_text(m));
        }
        s
    } else if names.len() == 2 {
        let mut s = String::from_str("Hello, ");
        s.append(names[0].as_str());
        s.append(" and ");
        s.append(names[1].as_str());
        proof {
            assert(s@ =~= greeting_text(m));
        }
        s
    } else {
        let mut s = String::from_str("Hello, everyone from ");
        s.append(names[0].as_str());
        s.append(" to ");
        s.append(names[names.len() - 1].as_str());
        proof {
            assert(s@ =~= greeting_text(m));
        }
        s
    }
}

/// A capability put onto an existing type: whether a character counts as an
/// emoji. The examples read every ASCII letter as one.
pub trait IsEmoji {
    /// Which values count as emoji.
    spec fn emoji_spec(&self) -> bool;

    /// Whether this value counts as an emoji.
    fn is_emoji(&self) -> (r: bool)
        ensures
            r == self.emoji_spec(),
    ;
}

impl IsEmoji for char {
    open spec fn emoji_spec(&self) -> bool {
        ('a' <= *self && *self <= 'z') || ('A' <= *self && *self <= 'Z')
    }

    fn is_emoji(&self) -> (r: bool) {
        ('a' <= *self && *self <= 'z') || ('A' <= *self && *self <= 'Z')
    }
}

/// A point on the plane.
pub struct Point {
    pub x: i32,
    pub y: i32,
}

/// A balloon hangs somewhere over the plane.
pub struct Balloon {
    pub location: Point,
}

/// Where a balloon is: straight up when it sits on the vertical axis, else
/// both coordinates.
pub open spec fn balloon_text(b: Balloon) -> Seq<char> {
    if b.location.x == 0 {
        "straight up "@ + dec_text(b.location.y as int) + " meters"@
    } else {
        "at "@ + dec_text(b.location.x as int) + "m , "@ + dec_text(b.location.y as int) + "m"@
    }
}

/// Word a balloon's location.
pub fn describe_balloon_location(balloon: Balloon) -> (s: String)
    ensures
        s@ == balloon_text(balloon),
{
    match balloon.location {
        Point { x: 0, y: height } => {
            let mut s = String::from_str("straight up ");
            let t = i64_string(height as i64);
            s.append(t.as_str());
            s.append(" meters");
            proof {
                assert(s@ =~= balloon_text(balloon));
            }
            s
        },
        Point { x, y } => {
            let mut s = String::from_str("at ");
            let t = i64_string(x as i64);
            s.append(t.as_str());
            s.append("m , ");
            let u = i64_string(y as i64);
            s.append(u.as_str());
            s.append("m");
            proof {
                assert(s@ =~= balloon_text(balloon));
            }
            s
        },
    }
}

/// Whether the reader stands at the end of a line or of the input: a line
/// feed, a carriage return, or nothing left.
pub fn at_end(input: Option<char>) -> (r: bool)
    ensures
        r == (input == Some('\n') || input == Some('\r') || input is None),
{
    match input {
        Some('\n' | '\r') | None => true,
        _ => false,
    }
}

pub const KILO: usize = 1024;

pub const MEGA: usize = 1024 * 1024;

pub const GIGA: usize = 1024 * 1024 * 1024;

/// A byte count worded with a coarse binary unit: plain below a kibibyte,
/// then whole kibibytes and mebibytes, and just "big" from a gibibyte up.
pub open spec fn bytes_text(n: nat) -> Seq<char> {
    if n < 1024 {
        dec_digits(n)
    } else if n < 1024 * 1024 {
        dec_digits(n / 1024) + "K"@
    } else if n < 1024 * 1024 * 1024 {
        dec_digits(n / (1024 * 1024)) + "M"@
    } else {
        "big"@
    }
}

/// Word a byte count.
pub fn bytes_converter(num_bytes: usize) -> (s: String)
    ensures
        s@ == bytes_text(num_bytes as nat),
{
    if num_bytes < KILO {
        let s = u64_string(num_bytes as u64);
        s
    } else if num_bytes < MEGA {
        let mut s = u64_string((num_bytes / KILO) as u64);
        s.append("K");
        proof {
            assert(s@ =~= bytes_text(num_bytes as nat));
        }
        s
    } else if num_bytes < GIGA {
        let mut s = u64_string((num_bytes / MEGA) as u64);
        s.append("M");
        proof {
            assert(s@ =~= bytes_text(num_bytes as nat));
        }
        s
    } else {
        let s = String::from_str("big");
        s
    }
}

/// An ASCII encoded string: every byte is below 0x80, so the bytes are also
/// well-formed UTF-8.
#[derive(Debug, Eq, PartialEq)]
pub struct Ascii(Vec<u8>);

/// The bytes that could not be converted, handed back whole.
#[derive(Debug, Eq, PartialEq)]
pub struct NotAsciiError(pub Vec<u8>);

impl Ascii {
    /// The byte content.
    pub closed spec fn view(&self) -> Seq<u8> {
        self.0@
    }

    /// Hand the bytes back; well-formed ASCII text is also well-formed
    /// UTF-8, so a caller may turn them into text without a second scan.
    pub fn into_bytes(self) -> (b: Vec<u8>)
        ensures
            b@ == self@,
    {
        self.0
    }

    /// Create an `Ascii` from the ASCII text in `bytes`. Return a
    /// `NotAsciiError` holding the input if `bytes` contains any non-ASCII
    /// byte.
    pub fn from_bytes(bytes: Vec<u8>) -> (r: Result<Ascii, NotAsciiError>)
        ensures
            match r {
                Ok(a) => (forall|i: int| 0 <= i < bytes@.len() ==> bytes@[i] < 128) && a@
                    == bytes@,
                Err(e) => (exists|i: int| 0 <= i < bytes@.len() && bytes@[i] >= 128) && e.0@
                    == bytes@,
            },
    {
        let mut i: usize = 0;
        #[verifier::loop_isolation(false)]
        while i < bytes.len()
            invariant
                i <= bytes@.len(),
                forall|j: int| 0 <= j < i ==> bytes@[j] < 128,
            decreases bytes@.len() - i,
        {
            if bytes[i] >= 128 {
                return Err(NotAsciiError(bytes));
            }
            i += 1;
        }
        Ok(Ascii(bytes))
    }
}

} // verus!
