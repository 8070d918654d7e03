//! Names of the date directories that screenshots are sorted into.

use vstd::prelude::*;

verus! {

/// A day of the calendar.
#[derive(Clone, Copy, Debug, PartialEq, Eq, Structural)]
pub struct CalendarDate {
    /// The year, as the calendar counts it; year 0 is 1 BCE.
    pub year: i32,
    /// The month, from 1.
    pub month: u8,
    /// The day of the month, from 1.
    pub day: u8,
}

impl CalendarDate {
    /// Whether month and day are in the calendar's range.
    pub open spec fn valid(self) -> bool {
        1 <= self.month <= 12 && 1 <= self.day <= 31
    }

    /// Whether month and day are in the calendar's range.
    pub fn is_valid(&self) -> (valid: bool)
        ensures
            valid == self.valid(),
    {
        1 <= self.month && self.month <= 12 && 1 <= self.day && self.day <= 31
    }
}

/// The character of a digit.
pub open spec fn digit(d: int) -> char {
    if d == 0 {
        '0'
    } else if d == 1 {
        '1'
    } else if d == 2 {
        '2'
    } else if d == 3 {
        '3'
    } else if d == 4 {
        '4'
    } else if d == 5 {
        '5'
    } else if d == 6 {
        '6'
    } else if d == 7 {
        '7'
    } else if d == 8 {
        '8'
    } else {
        '9'
    }
}

/// The last `width` decimal digits of `value`, with leading zeros.
pub open spec fn digits(value: nat, width: nat) -> Seq<char>
    decreases width,
{
    if width == 0 {
        Seq::empty()
    } else {
        digits(value / 10, (width - 1) as nat).push(digit((value % 10) as int))
    }
}

/// The year in full: four digits from 0 to 9999; any other year with its
/// sign and at least four digits.
pub open spec fn year_text(year: int) -> Seq<char> {
    if 0 <= year <= 9999 {
        digits(year as nat, 4)
    } else {
        let size = if year < 0 {
            -year
        } else {
            year
        };
        let sign = if year < 0 {
            '-'
        } else {
            '+'
        };
        seq![sign] + digits(size as nat, year_width(size))
    }
}

/// Number of digits that a year of this size is written with.
pub open spec fn year_width(size: int) -> nat {
    if size < 10_000 {
        4
    } else if size < 100_000 {
        5
    } else if size < 1_000_000 {
        6
    } else if size < 10_000_000 {
        7
    } else if size < 100_000_000 {
        8
    } else if size < 1_000_000_000 {
        9
    } else {
        10
    }
}

/// The last two digits of the year, counted from the century's start.
pub open spec fn short_year_text(year: int) -> Seq<char> {
    digits((year % 100) as nat, 2)
}

/// `text` with every occurrence of `pattern` replaced by `with`, found from
/// the left and without overlaps. An empty pattern occurs nowhere.
pub open spec fn replaced(text: Seq<char>, pattern: Seq<char>, with: Seq<char>) -> Seq<char>
    decreases text.len(),
{
    if pattern.len() == 0 || text.len() < pattern.len() {
        text
    } else if text.subrange(0, pattern.len() as int) == pattern {
        with + replaced(text.subrange(pattern.len() as int, text.len() as int), pattern, with)
    } else {
        seq![text[0]] + replaced(text.subrange(1, text.len() as int), pattern, with)
    }
}

/// The name that `format` gives the day `date`: first every `YYYY` becomes
/// the year in full, then every `YY` the year's last two digits, then every
/// `MM` the month and every `DD` the day, each with two digits.
pub open spec fn formatted(date: CalendarDate, format: Seq<char>) -> Seq<char> {
    let years = replaced(format, "YYYY"@, year_text(date.year as int));
    let short_years = replaced(years, "YY"@, short_year_text(date.year as int));
    let months = replaced(short_years, "MM"@, digits(date.month as nat, 2));
    replaced(months, "DD"@, digits(date.day as nat, 2))
}

fn digit_text(d: u32) -> (text: &'static str)
    requires
        d < 10,
    ensures
        text@ == seq![digit(d as int)],
{
    proof {
        reveal_strlit("0");
        reveal_strlit("1");
        reveal_strlit("2");
        reveal_strlit("3");
        reveal_strlit("4");
        reveal_strlit("5");
        reveal_strlit("6");
        reveal_strlit("7");
        reveal_strlit("8");
        reveal_strlit("9");
    }
    let text = if d == 0 {
        "0"
    } else if d == 1 {
        "1"
    } else if d == 2 {
        "2"
    } else if d == 3 {
        "3"
    } else if d == 4 {
        "4"
    } else if d == 5 {
        "5"
    } else if d == 6 {
        "6"
    } else if d == 7 {
        "7"
    } else if d == 8 {
        "8"
    } else {
        "9"
    };
    proof {
        assert(text@ =~= seq![digit(d as int)]);
    }
    text
}

/// Writes the last `width` decimal digits of `value`, with leading zeros.
pub fn write_digits(value: u32, width: u8) -> (text: String)
    ensures
        text@ == digits(value as nat, width as nat),
    decreases width,
{
    if width == 0 {
        let text = String::new();
        proof {
            assert(text@ =~= digits(value as nat, 0));
        }
        text
    } else {
        let mut text = write_digits(value / 10, width - 1);
        text.append(digit_text(value % 10));
        proof {
            assert(text@ =~= digits(value as nat, width as nat));
        }
        text
    }
}

fn write_year(year: i32) -> (text: String)
    ensures
        text@ == year_text(year as int),
{
    if 0 <= year && year <= 9999 {
        write_digits(year as u32, 4)
    } else {
        let negative = year < 0;
        let size: u32 = if negative {
            if year == i32::MIN {
                2_147_483_648u32
            } else {
                (-year) as u32
            }
        } else {
            year as u32
        };
        let width: u8 = if size < 10_000 {
            4
        } else if size < 100_000 {
            5
        } else if size < 1_000_000 {
            6
        } else if size < 10_000_000 {
            7
        } else if size < 100_000_000 {
            8
        } else if size < 1_000_000_000 {
            9
        } else {
            10
        };
        proof {
            reveal_strlit("-");
            reveal_strlit("+");
        }
        let mut text = String::from_str(
            if negative {
                "-"
            } else {
                "+"
            },
        );
        let written = write_digits(size, width);
        text.append(written.as_str());
        proof {
            assert(text@ =~= year_text(year as int));
        }
        text
    }
}

fn short_year(year: i32) -> (text: String)
    ensures
        text@ == short_year_text(year as int),
{
    let rest: i32 = year % 100;
    let last: i32 = if rest < 0 {
        rest + 100
    } else {
        rest
    };
    assert(last == (year as int) % 100) by (nonlinear_arith)
        requires
            -100 < rest < 100,
            rest == if year >= 0 {
                (year as int) % 100
            } else {
                -((-(year as int)) % 100)
            },
            last == if rest < 0 {
                rest + 100
            } else {
                rest as int
            },
    ;
    write_digits(last as u32, 2)
}

fn matches_at(text: &str, at: usize, pattern: &str) -> (found: bool)
    requires
        at + pattern@.len() <= text@.len(),
    ensures
        found == (text@.subrange(at as int, at + pattern@.len()) == pattern@),
{
    let n = pattern.unicode_len();
    let total = text.unicode_len();
    let mut i: usize = 0;
    while i < n
        invariant
            n == pattern@.len(),
            total == text@.len(),
            at + n <= text@.len(),
            i <= n,
            forall|j: int| 0 <= j < i ==> text@[at + j] == pattern@[j],
        decreases n - i,
    {
        if text.get_char(at + i) != pattern.get_char(i) {
            proof {
                assert(text@.subrange(at as int, at + n)[i as int] != pattern@[i as int]);
            }
            return false;
        }
        i += 1;
    }
    proof {
        assert(text@.subrange(at as int, at + n) =~= pattern@);
    }
    true
}

/// Replaces every occurrence of `pattern` in `text` by `with`, searching
/// from the left and going on behind each occurrence found. An empty
/// pattern occurs nowhere.
pub fn replace_all(text: &str, pattern: &str, with: &str) -> (out: String)
    ensures
        out@ == replaced(text@, pattern@, with@),
{
    let n = text.unicode_len();
    let p = pattern.unicode_len();
    if p == 0 {
        return String::from_str(text);
    }
    let mut out = String::new();
    let mut i: usize = 0;
    proof {
        assert(text@.subrange(0, n as int) =~= text@);
    }
    while i < n && n - i >= p
        invariant
            n == text@.len(),
            p == pattern@.len(),
            p > 0,
            i <= n,
            out@ + replaced(text@.subrange(i as int, n as int), pattern@, with@) == replaced(
                text@,
                pattern@,
                with@,
            ),
        decreases n - i,
    {
        let ghost rest = text@.subrange(i as int, n as int);
        let ghost before = out@;
        if matches_at(text, i, pattern) {
            out.append(with);
            proof {
                assert(rest.subrange(0, p as int) =~= text@.subrange(i as int, i + p));
                assert(rest.subrange(p as int, rest.len() as int) =~= text@.subrange(
                    i + p,
                    n as int,
                ));
                assert(out@ + replaced(text@.subrange(i + p, n as int), pattern@, with@)
                    =~= before + replaced(rest, pattern@, with@));
            }
            i += p;
        } else {
            let one = text.substring_char(i, i + 1);
            out.append(one);
            proof {
                assert(rest.subrange(0, p as int) =~= text@.subrange(i as int, i + p));
                assert(rest.subrange(1, rest.len() as int) =~= text@.subrange(i + 1, n as int));
                assert(one@ =~= seq![rest[0]]);
                assert(out@ + replaced(text@.subrange(i + 1, n as int), pattern@, with@)
                    =~= before + replaced(rest, pattern@, with@));
            }
            i += 1;
        }
    }
    let tail = text.substring_char(i, n);
    out.append(tail);
    proof {
        let rest = text@.subrange(i as int, n as int);
        assert(replaced(rest, pattern@, with@) == rest);
    }
    out
}

/// Names the directory of the day `date` after `format`: `YYYY` stands for
/// the year in full, `YY` for its last two digits, `MM` for the month and
/// `DD` for the day; everything else is kept.
pub fn format_date(date: CalendarDate, format: &str) -> (name: String)
    ensures
        name@ == formatted(date, format@),
{
    proof {
        reveal_strlit("YYYY");
        reveal_strlit("YY");
        reveal_strlit("MM");
        reveal_strlit("DD");
    }
    let year = write_year(date.year);
    let years = replace_all(format, "YYYY", year.as_str());
    let short = short_year(date.year);
    let short_years = replace_all(years.as_str(), "YY", short.as_str());
    let month = write_digits(date.month as u32, 2);
    let months = replace_all(short_years.as_str(), "MM", month.as_str());
    let day = write_digits(date.day as u32, 2);
    replace_all(months.as_str(), "DD", day.as_str())
}

/// Number of digits that a number is written with.
pub open spec fn number_width(n: nat) -> nat {
    if n < 10 {
        1
    } else if n < 100 {
        2
    } else if n < 1_000 {
        3
    } else {
        year_width(n as int)
    }
}

/// Writes `n` in decimal digits, without leading zeros.
pub fn write_number(n: u32) -> (text: String)
    ensures
        text@ == digits(n as nat, number_width(n as nat)),
{
    let width: u8 = if n < 10 {
        1
    } else if n < 100 {
        2
    } else if n < 1_000 {
        3
    } else if n < 10_000 {
        4
    } else if n < 100_000 {
        5
    } else if n < 1_000_000 {
        6
    } else if n < 10_000_000 {
        7
    } else if n < 100_000_000 {
        8
    } else if n < 1_000_000_000 {
        9
    } else {
        10
    };
    write_digits(n, width)
}

/// How often a taken name is numbered anew before the move is given up.
pub const MAX_DUPLICATES: u32 = 1000;

/// The name of a file whose own name is taken in its date directory: the
/// stem, an underscore and the number of the try, then a dot and the
/// extension where the file has one.
pub open spec fn numbered(stem: Seq<char>, counter: nat, ext: Seq<char>) -> Seq<char> {
    let base = stem + seq!['_'] + digits(counter, number_width(counter));
    if ext.len() == 0 {
        base
    } else {
        base + seq!['.'] + ext
    }
}

/// Writes the name for try `counter` of a file whose own name is taken.
pub fn numbered_name(stem: &str, counter: u32, ext: &str) -> (name: String)
    ensures
        name@ == numbered(stem@, counter as nat, ext@),
{
    proof {
        reveal_strlit("_");
        reveal_strlit(".");
    }
    let mut name = String::from_str(stem);
    name.append("_");
    let number = write_number(counter);
    name.append(number.as_str());
    if ext.unicode_len() > 0 {
        name.append(".");
        name.append(ext);
    }
    proof {
        assert(name@ =~= numbered(stem@, counter as nat, ext@));
    }
    name
}

/// Whether the name of try `counter` is still tried: the tries are numbered
/// from 1, and the move is given up when their number reaches
/// [`MAX_DUPLICATES`].
pub fn may_try_again(counter: u32) -> (again: bool)
    ensures
        again == (counter < MAX_DUPLICATES),
{
    counter < MAX_DUPLICATES
}

} // verus!
