//! The metadata record extracted from a document: title, author, description,
//! charset and the last-modified instant, together with the merge law that
//! combines a primary (JSON-LD) record with a secondary (tag-derived) one.

#![verifier::loop_isolation(false)]

use vstd::prelude::*;
use chrono::Datelike;
use chrono::Timelike;

verus! {

/// A parsed RFC 3339 instant, as plain calendar and clock fields plus the
/// fixed UTC offset in seconds.
#[derive(Clone, Copy, PartialEq, Eq, Structural, Debug)]
pub struct DateParts {
    pub year: i32,
    pub month: u8,
    pub day: u8,
    pub hour: u8,
    pub minute: u8,
    pub second: u8,
    pub offset_seconds: i32,
}

/// What `chrono` returns for a given RFC 3339 string: `None` where parsing
/// fails, otherwise the parsed fields.
pub uninterp spec fn rfc3339_parts(s: Seq<char>) -> Option<DateParts>;

/// The fields of a successfully parsed instant lie in their calendar ranges;
/// an RFC 3339 year has four digits.
pub open spec fn date_parts_wf(p: DateParts) -> bool {
    1 <= p.month <= 12 && 1 <= p.day <= 31 && p.hour < 24 && p.minute < 60 && p.second < 60 && 0
        <= p.year < 10000
}

/// A metadata record carries a well-formed instant, if any.
pub open spec fn meta_wf(m: MetaV) -> bool {
    match m.last_modified {
        Some(p) => date_parts_wf(p),
        None => true,
    }
}

/// Relies on `chrono::DateTime::parse_from_rfc3339`: the result is a function
/// of the input string alone, and the `Datelike`/`Timelike` accessors return
/// calendar fields in their documented ranges (month 1-12, day 1-31,
/// hour 0-23, minute and second 0-59; an RFC 3339 date carries a four-digit
/// year).
#[verifier::external_body]
pub fn parse_rfc3339(s: &str) -> (r: Option<DateParts>)
    ensures
        r == rfc3339_parts(s@),
        r is Some ==> date_parts_wf(r->0),
{
    match chrono::DateTime::parse_from_rfc3339(s) {
        Ok(d) => Some(DateParts {
            year: d.year(),
            month: d.month() as u8,
            day: d.day() as u8,
            hour: d.hour() as u8,
            minute: d.minute() as u8,
            second: d.second() as u8,
            offset_seconds: d.offset().local_minus_utc(),
        }),
        Err(_) => None,
    }
}

/// The metadata record of a document.
#[derive(Debug)]
pub struct Meta {
    pub title: String,
    pub author: Option<String>,
    pub description: Option<String>,
    pub charset: Option<String>,
    pub last_modified: Option<DateParts>,
}

/// The mathematical value of a metadata record: each text field as its
/// character sequence.
#[verifier::ext_equal]
pub struct MetaV {
    pub title: Seq<char>,
    pub author: Option<Seq<char>>,
    pub description: Option<Seq<char>>,
    pub charset: Option<Seq<char>>,
    pub last_modified: Option<DateParts>,
}

/// The character sequence held by an optional string.
pub open spec fn ostr(o: Option<String>) -> Option<Seq<char>> {
    match o {
        Some(s) => Some(s@),
        None => None,
    }
}

impl View for Meta {
    type V = MetaV;

    open spec fn view(&self) -> MetaV {
        MetaV {
            title: self.title@,
            author: ostr(self.author),
            description: ostr(self.description),
            charset: ostr(self.charset),
            last_modified: self.last_modified,
        }
    }
}

/// The merge law on metadata values: each field of the primary is kept where
/// present (for the title, non-empty), else taken from the secondary.
pub open spec fn merge_spec(a: MetaV, b: MetaV) -> MetaV {
    MetaV {
        title: if a.title.len() == 0 {
            b.title
        } else {
            a.title
        },
        author: if a.author is Some {
            a.author
        } else {
            b.author
        },
        description: if a.description is Some {
            a.description
        } else {
            b.description
        },
        charset: if a.charset is Some {
            a.charset
        } else {
            b.charset
        },
        last_modified: if a.last_modified is Some {
            a.last_modified
        } else {
            b.last_modified
        },
    }
}

impl Default for Meta {
    /// The empty record: no field set.
    fn default() -> (r: Meta)
        ensures
            r.title@ == Seq::<char>::empty(),
            r.author is None,
            r.description is None,
            r.charset is None,
            r.last_modified is None,
    {
        Meta {
            title: String::new(),
            author: None,
            description: None,
            charset: None,
            last_modified: None,
        }
    }
}

impl Meta {
    /// Merge law: each field of `self` is kept where present, else taken from
    /// `other`. The title treats the empty string as absent; the other fields
    /// treat only `None` as absent.
    pub fn merge(self, other: Meta) -> (r: Meta)
        ensures
            r@ == merge_spec(self@, other@),
    {
        let title = if self.title.as_str().unicode_len() == 0 {
            other.title
        } else {
            self.title
        };
        let author = if self.author.is_some() {
            self.author
        } else {
            other.author
        };
        let description = if self.description.is_some() {
            self.description
        } else {
            other.description
        };
        let charset = if self.charset.is_some() {
            self.charset
        } else {
            other.charset
        };
        let last_modified = if self.last_modified.is_some() {
            self.last_modified
        } else {
            other.last_modified
        };
        let r = Meta { title, author, description, charset, last_modified };
        proof {
            assert(r@ =~= merge_spec(self@, other@));
        }
        r
    }
}

/// The digit character for a value below ten.
pub open spec fn digit(d: int) -> char {
    if d == 0 {
        '0'
    } else if d == 1 {
        '1'
    } else if d == 2 {
        '2'
    } else if d == 3 {
        '3'
    } else if d == 4 {
        '4'
    } else if d == 5 {
        '5'
    } else if d == 6 {
        '6'
    } else if d == 7 {
        '7'
    } else if d == 8 {
        '8'
    } else {
        '9'
    }
}

/// A value below one hundred, zero-padded to two digits.
pub open spec fn pad2(n: int) -> Seq<char> {
    seq![digit(n / 10 % 10), digit(n % 10)]
}

/// A value below ten thousand, zero-padded to four digits.
pub open spec fn pad4(n: int) -> Seq<char> {
    seq![digit(n / 1000 % 10), digit(n / 100 % 10), digit(n / 10 % 10), digit(n % 10)]
}

/// The English month abbreviation.
pub open spec fn month_abbr(m: int) -> Seq<char> {
    if m == 1 {
        seq!['J', 'a', 'n']
    } else if m == 2 {
        seq!['F', 'e', 'b']
    } else if m == 3 {
        seq!['M', 'a', 'r']
    } else if m == 4 {
        seq!['A', 'p', 'r']
    } else if m == 5 {
        seq!['M', 'a', 'y']
    } else if m == 6 {
        seq!['J', 'u', 'n']
    } else if m == 7 {
        seq!['J', 'u', 'l']
    } else if m == 8 {
        seq!['A', 'u', 'g']
    } else if m == 9 {
        seq!['S', 'e', 'p']
    } else if m == 10 {
        seq!['O', 'c', 't']
    } else if m == 11 {
        seq!['N', 'o', 'v']
    } else {
        seq!['D', 'e', 'c']
    }
}

/// The last-modified line injected by the post-processor: the pattern
/// `Updated %b. %d, %Y %H:%M %P` with the English month abbreviation and a
/// lowercase am/pm marker.
pub open spec fn fmt_updated(p: DateParts) -> Seq<char> {
    seq!['U', 'p', 'd', 'a', 't', 'e', 'd', ' '] + month_abbr(p.month as int) + seq!['.', ' ']
        + pad2(p.day as int) + seq![',', ' '] + pad4(p.year as int) + seq![' '] + pad2(
        p.hour as int,
    ) + seq![':'] + pad2(p.minute as int) + seq![' '] + (if p.hour < 12 {
        seq!['a', 'm']
    } else {
        seq!['p', 'm']
    })
}

fn digit_ch(d: u8) -> (c: char)
    requires
        d < 10,
    ensures
        c == digit(d as int),
{
    match d {
        0 => '0',
        1 => '1',
        2 => '2',
        3 => '3',
        4 => '4',
        5 => '5',
        6 => '6',
        7 => '7',
        8 => '8',
        _ => '9',
    }
}

fn push_pad2(out: &mut Vec<char>, n: u8)
    ensures
        final(out)@ == old(out)@ + pad2(n as int),
{
    out.push(digit_ch(n / 10 % 10));
    out.push(digit_ch(n % 10));
    proof {
        assert(final(out)@ =~= old(out)@ + pad2(n as int));
    }
}

/// Format the last-modified instant for display.
#[verifier::rlimit(50)]
pub fn format_updated(p: &DateParts) -> (r: Vec<char>)
    requires
        date_parts_wf(*p),
    ensures
        r@ == fmt_updated(*p),
{
    let mut out: Vec<char> = Vec::new();
    out.push('U');
    out.push('p');
    out.push('d');
    out.push('a');
    out.push('t');
    out.push('e');
    out.push('d');
    out.push(' ');
    let (a, b, c) = month_abbr_ch(p.month);
    out.push(a);
    out.push(b);
    out.push(c);
    out.push('.');
    out.push(' ');
    push_pad2(&mut out, p.day);
    out.push(',');
    out.push(' ');
    let y = p.year as u16;
    out.push(digit_ch((y / 1000 % 10) as u8));
    out.push(digit_ch((y / 100 % 10) as u8));
    out.push(digit_ch((y / 10 % 10) as u8));
    out.push(digit_ch((y % 10) as u8));
    out.push(' ');
    push_pad2(&mut out, p.hour);
    out.push(':');
    push_pad2(&mut out, p.minute);
    out.push(' ');
    if p.hour < 12 {
        out.push('a');
        out.push('m');
    } else {
        out.push('p');
        out.push('m');
    }
    proof {
        assert(out@ =~= fmt_updated(*p));
    }
    out
}

fn month_abbr_ch(m: u8) -> (r: (char, char, char))
    requires
        1 <= m <= 12,
    ensures
        seq![r.0, r.1, r.2] == month_abbr(m as int),
{
    let r = match m {
        1 => ('J', 'a', 'n'),
        2 => ('F', 'e', 'b'),
        3 => ('M', 'a', 'r'),
        4 => ('A', 'p', 'r'),
        5 => ('M', 'a', 'y'),
        6 => ('J', 'u', 'n'),
        7 => ('J', 'u', 'l'),
        8 => ('A', 'u', 'g'),
        9 => ('S', 'e', 'p'),
        10 => ('O', 'c', 't'),
        11 => ('N', 'o', 'v'),
        _ => ('D', 'e', 'c'),
    };
    proof {
        assert(seq![r.0, r.1, r.2] =~= month_abbr(m as int));
    }
    r
}

} // verus!
