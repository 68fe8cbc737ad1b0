use vstd::prelude::*;
use vstd::string::StringSliceAdditionalSpecFns;

use crate::calendar::{epoch_days_of_ymd, ymd_epoch_days};
use crate::error::Error;
use crate::related_party::{all_digits, digits_value};

verus! {

/// The kind of a data file, as told by its name
#[derive(Debug, Clone, Copy, PartialEq, Eq, Structural)]
pub enum FileType {
    Csv,
    Json,
    Yaml,
}

/// How a store is laid out in a data file
#[derive(Debug, Default, Clone, Copy, PartialEq, Eq, Structural)]
pub enum FileFormat {
    #[default]
    Array,
    Dictionary,
}

/// `p` ends `s`
pub open spec fn bytes_suffix(s: Seq<u8>, p: Seq<u8>) -> bool {
    p.len() <= s.len() && s.skip(s.len() - p.len()) == p
}

/// True if the bytes of `s` end with those of `p`
fn ends_with(s: &str, p: &str) -> (r: bool)
    ensures
        r == bytes_suffix(s.spec_bytes(), p.spec_bytes()),
{
    let a = s.as_bytes();
    let b = p.as_bytes();
    if b.len() > a.len() {
        return false;
    }
    let alen = a.len();
    let off = alen - b.len();
    let mut i: usize = 0;
    while i < b.len()
        invariant
            i <= b@.len(),
            off + b@.len() == a@.len(),
            a@.len() == alen,
            a@ == s.spec_bytes(),
            b@ == p.spec_bytes(),
            forall|k: int| 0 <= k < i ==> a@[off + k] == b@[k],
        decreases b@.len() - i,
    {
        if a[off + i] != b[i] {
            assert(a@.skip(off as int)[i as int] != b@[i as int]);
            return false;
        }
        i += 1;
    }
    assert(a@.skip(off as int) =~= b@);
    true
}

impl FileType {
    /// The kind of file that `f` names, by its extension
    pub fn from_filename(f: &str) -> (r: Result<Self, Error>)
        ensures
            bytes_suffix(f.spec_bytes(), ".yaml".spec_bytes()) ==> r == Ok::<Self, Error>(
                FileType::Yaml,
            ),
            !bytes_suffix(f.spec_bytes(), ".yaml".spec_bytes()) && bytes_suffix(
                f.spec_bytes(),
                ".json".spec_bytes(),
            ) ==> r == Ok::<Self, Error>(FileType::Json),
            !bytes_suffix(f.spec_bytes(), ".yaml".spec_bytes()) && !bytes_suffix(
                f.spec_bytes(),
                ".json".spec_bytes(),
            ) && bytes_suffix(f.spec_bytes(), ".csv".spec_bytes()) ==> r == Ok::<Self, Error>(
                FileType::Csv,
            ),
            r is Err <==> !bytes_suffix(f.spec_bytes(), ".yaml".spec_bytes()) && !bytes_suffix(
                f.spec_bytes(),
                ".json".spec_bytes(),
            ) && !bytes_suffix(f.spec_bytes(), ".csv".spec_bytes()),
            r matches Err(e) ==> (e matches Error::UnknownFileExtension(s) && s@ == f@),
    {
        if ends_with(f, ".yaml") {
            Ok(FileType::Yaml)
        } else if ends_with(f, ".json") {
            Ok(FileType::Json)
        } else if ends_with(f, ".csv") {
            Ok(FileType::Csv)
        } else {
            Err(Error::UnknownFileExtension(f.to_owned()))
        }
    }
}

/// The groups of bytes between the `/` separators of `s`
pub open spec fn split_slash(s: Seq<u8>) -> Seq<Seq<u8>>
    decreases s.len(),
{
    if s.len() == 0 {
        seq![Seq::<u8>::empty()]
    } else {
        let f = split_slash(s.drop_last());
        if s.last() == 47 {
            f.push(Seq::<u8>::empty())
        } else {
            f.update(f.len() - 1, f.last().push(s.last()))
        }
    }
}

proof fn lemma_split_nonempty(s: Seq<u8>)
    ensures
        split_slash(s).len() >= 1,
    decreases s.len(),
{
    if s.len() > 0 {
        lemma_split_nonempty(s.drop_last());
    }
}

/// A group of one or two digits
pub open spec fn short_group(g: Seq<u8>) -> bool {
    1 <= g.len() <= 2 && all_digits(g)
}

/// A group of digits that can be a year: one, two or four of them
pub open spec fn year_group(g: Seq<u8>) -> bool {
    (g.len() == 1 || g.len() == 2 || g.len() == 4) && all_digits(g)
}

/// The day, month and year that the text `s` spells: `d/m/y` or `m/y`
/// (meaning the first of the month), with one or two digits for the day and
/// month and one, two or four for the year
pub open spec fn date_fields(s: Seq<u8>) -> Option<(int, int, int)> {
    let f = split_slash(s);
    if f.len() == 3 && short_group(f[0]) && short_group(f[1]) && year_group(f[2]) {
        Some((digits_value(f[0]), digits_value(f[1]), digits_value(f[2])))
    } else if f.len() == 2 && short_group(f[0]) && year_group(f[1]) {
        Some((1, digits_value(f[0]), digits_value(f[1])))
    } else {
        None
    }
}

/// A year written with one or two digits is taken as 2000 to 2089 or
/// 1990 to 1999
pub open spec fn full_year(y: int) -> int {
    if y < 90 {
        y + 2000
    } else if y < 100 {
        y + 1900
    } else {
        y
    }
}

/// The day number of the calendar day `day`/`month`/`year`, with the year
/// read as [full_year] reads it, if the day exists and is not before 1970
pub open spec fn date_of_dmy(day: int, month: int, year: int) -> Option<usize> {
    match ymd_epoch_days(full_year(year) as i32, month as u32, day as u32) {
        Some(n) => if n >= 0 {
            Some(n as usize)
        } else {
            None
        },
        None => None,
    }
}

/// Split the bytes of `b` at each `/`
fn split_fields(b: &[u8]) -> (r: Vec<Vec<u8>>)
    ensures
        r@.map_values(|v: Vec<u8>| v@) == split_slash(b@),
{
    let mut done: Vec<Vec<u8>> = Vec::new();
    let mut cur: Vec<u8> = Vec::new();
    let mut i: usize = 0;
    while i < b.len()
        invariant
            i <= b@.len(),
            done@.map_values(|v: Vec<u8>| v@).push(cur@) == split_slash(b@.take(i as int)),
        decreases b@.len() - i,
    {
        assert(b@.take(i as int + 1).drop_last() =~= b@.take(i as int));
        proof {
            lemma_split_nonempty(b@.take(i as int));
        }
        let ghost before = done@.map_values(|v: Vec<u8>| v@);
        if b[i] == 47 {
            let c = cur;
            done.push(c);
            cur = Vec::new();
            assert(done@.map_values(|v: Vec<u8>| v@) =~= before.push(c@));
            assert(done@.map_values(|v: Vec<u8>| v@).push(cur@) =~= split_slash(b@.take(i as int + 1)));
        } else {
            let ghost old_cur = cur@;
            cur.push(b[i]);
            assert(done@.map_values(|v: Vec<u8>| v@).push(cur@) =~= before.push(old_cur).update(
                before.len() as int,
                old_cur.push(b@[i as int]),
            ));
        }
        i += 1;
    }
    assert(b@.take(b@.len() as int) =~= b@);
    let ghost before = done@.map_values(|v: Vec<u8>| v@);
    let c = cur;
    done.push(c);
    assert(done@.map_values(|v: Vec<u8>| v@) =~= before.push(c@));
    done
}

/// Powers of ten up to four digits
pub open spec fn pow10(i: int) -> int {
    if i <= 0 {
        1
    } else if i == 1 {
        10
    } else if i == 2 {
        100
    } else if i == 3 {
        1000
    } else {
        10000
    }
}

/// The value of a group of at most four digits
fn small_number(g: &Vec<u8>) -> (r: u32)
    requires
        g@.len() <= 4,
        all_digits(g@),
    ensures
        r == digits_value(g@),
        r < 10000,
{
    let mut v: u32 = 0;
    let mut i: usize = 0;
    while i < g.len()
        invariant
            i <= g@.len(),
            g@.len() <= 4,
            all_digits(g@),
            v == digits_value(g@.take(i as int)),
            v < pow10(i as int),
        decreases g@.len() - i,
    {
        assert(g@.take(i as int + 1).drop_last() =~= g@.take(i as int));
        let d = g[i] - 48;
        assert(48 <= g@[i as int] <= 57);
        assert(v * 10 + d < pow10(i as int + 1)) by (nonlinear_arith)
            requires
                v < pow10(i as int),
                d <= 9,
                i < 4,
                pow10(i as int + 1) == 10 * pow10(i as int),
        ;
        v = v * 10 + d as u32;
        i += 1;
    }
    assert(g@.take(g@.len() as int) =~= g@);
    v
}

/// True if every byte of `g` is a decimal digit
fn is_all_digits(g: &Vec<u8>) -> (r: bool)
    ensures
        r == all_digits(g@),
{
    let mut i: usize = 0;
    while i < g.len()
        invariant
            i <= g@.len(),
            forall|k: int| 0 <= k < i ==> 48 <= #[trigger] g@[k] <= 57,
        decreases g@.len() - i,
    {
        if g[i] < 48 || g[i] > 57 {
            return false;
        }
        i += 1;
    }
    true
}

/// An entity with no attributes of its own
#[derive(Debug, Clone, Copy, Hash, PartialEq, Eq, Structural)]
pub struct Entity {}

/// A semi-date ordering value; zero means unset
#[derive(Debug, Clone, Copy, Default, Hash, PartialEq, Eq, Structural, PartialOrd, Ord)]
pub struct Ordering {
    pub value: usize,
}

impl Ordering {
    /// True if the ordering is unset
    pub fn is_none(&self) -> (r: bool)
        ensures
            r == (self.value == 0),
    {
        self.value == 0
    }

    /// The ordering with the given value
    pub fn from_usize(value: usize) -> (r: Self)
        ensures
            r.value == value,
    {
        Ordering { value }
    }
}

/// A day in the system: days since the epoch; zero means unset or unknown
#[derive(Debug, Clone, Copy, Default, Hash, PartialEq, Eq, Structural, PartialOrd, Ord)]
pub struct Date {
    pub value: usize,
}

impl Date {
    pub open spec fn spec_is_none(self) -> bool {
        self.value == 0
    }

    /// The date a number of days after the epoch
    pub fn of_days(value: usize) -> (r: Self)
        ensures
            r.value == value,
    {
        Date { value }
    }

    /// True if the date is unset
    pub fn is_none(&self) -> (r: bool)
        ensures
            r == self.spec_is_none(),
    {
        self.value == 0
    }

    /// The date of the calendar day `day`/`month`/`year`; a year below 100
    /// is taken as 2000 to 2089 or 1990 to 1999
    ///
    /// Fails for a day that does not exist, or one before 1970.
    pub fn of_dmy(day: u32, month: u32, year: i32) -> (r: Result<Self, Error>)
        ensures
            r is Ok == date_of_dmy(day as int, month as int, year as int) is Some,
            r is Ok ==> r->Ok_0.value == date_of_dmy(day as int, month as int, year as int)->Some_0,
            r is Err ==> r->Err_0 is ParseDate,
    {
        let year = if year < 90 {
            year + 2000
        } else if year < 100 {
            year + 1900
        } else {
            year
        };
        match epoch_days_of_ymd(year, month, day) {
            Some(n) => {
                if n >= 0 {
                    Ok(Date { value: n as usize })
                } else {
                    Err(Error::ParseDate(String::new()))
                }
            },
            None => Err(Error::ParseDate(String::new())),
        }
    }

    /// The date that `s` spells: `d/m/y` or `m/y`, as [date_fields] reads it
    pub fn parse(s: &str) -> (r: Result<Self, Error>)
        ensures
            r is Ok == (date_fields(s.spec_bytes()) is Some && date_of_dmy(
                date_fields(s.spec_bytes())->Some_0.0,
                date_fields(s.spec_bytes())->Some_0.1,
                date_fields(s.spec_bytes())->Some_0.2,
            ) is Some),
            r is Ok ==> r->Ok_0.value == date_of_dmy(
                date_fields(s.spec_bytes())->Some_0.0,
                date_fields(s.spec_bytes())->Some_0.1,
                date_fields(s.spec_bytes())->Some_0.2,
            )->Some_0,
            r is Err ==> r->Err_0 is ParseDate,
    {
        let b = s.as_bytes();
        let f = split_fields(b);
        let ghost fv = f@.map_values(|v: Vec<u8>| v@);
        assert(fv == split_slash(s.spec_bytes()));
        if f.len() == 3 {
            assert(f@[0]@ == fv[0] && f@[1]@ == fv[1] && f@[2]@ == fv[2]);
            let (a, m, y) = (&f[0], &f[1], &f[2]);
            if a.len() >= 1 && a.len() <= 2 && m.len() >= 1 && m.len() <= 2 && (y.len() == 1
                || y.len() == 2 || y.len() == 4) && is_all_digits(a) && is_all_digits(m)
                && is_all_digits(y) {
                let day = small_number(a);
                let month = small_number(m);
                let year = small_number(y);
                return Self::of_dmy(day, month, year as i32);
            }
        } else if f.len() == 2 {
            assert(f@[0]@ == fv[0] && f@[1]@ == fv[1]);
            let (m, y) = (&f[0], &f[1]);
            if m.len() >= 1 && m.len() <= 2 && (y.len() == 1 || y.len() == 2 || y.len() == 4)
                && is_all_digits(m) && is_all_digits(y) {
                let month = small_number(m);
                let year = small_number(y);
                return Self::of_dmy(1, month, year as i32);
            }
        }
        Err(Error::ParseDate(s.to_owned()))
    }

    /// The date `n` days later; an unset date stays unset
    pub fn plus_days(&self, n: usize) -> (r: Self)
        requires
            self.value + n <= usize::MAX,
        ensures
            r.value == if self.spec_is_none() { 0 } else { self.value + n },
    {
        if self.value == 0 {
            *self
        } else {
            Date { value: self.value + n }
        }
    }
}

/// A half-open range of dates `[start, end)`; an unset start means no dates
#[derive(Debug, Default, Clone, Copy, PartialEq, Eq, Structural)]
pub struct DateRange {
    pub start: Date,
    pub end: Date,
}

impl DateRange {
    /// Either the empty range, or a start before the end
    pub open spec fn wf(self) -> bool {
        ||| (self.start.value == 0 && self.end.value == 0)
        ||| (self.start.value != 0 && self.start.value < self.end.value)
    }

    pub open spec fn spec_start(self) -> usize {
        self.start.value
    }

    pub open spec fn spec_end(self) -> usize {
        self.end.value
    }

    /// The dates the range holds
    pub open spec fn spec_contains(self, date: usize) -> bool {
        date != 0 && self.start.value != 0 && self.start.value <= date < self.end.value
    }

    /// The range with the given bounds, made valid
    ///
    /// An unset start gives the empty range; an unset end the single day
    /// of the start; an end not after the start the empty range.
    pub fn of_dates(start: Date, end: Date) -> (r: Self)
        requires
            start.value < usize::MAX,
        ensures
            r.wf(),
            start.value == 0 ==> r.start.value == 0 && r.end.value == 0,
            start.value != 0 && end.value == 0 ==> r.start == start && r.end.value == start.value + 1,
            start.value != 0 && end.value != 0 && end.value <= start.value ==> r.start.value == 0
                && r.end.value == 0,
            start.value != 0 && end.value != 0 && start.value < end.value ==> r.start == start
                && r.end == end,
    {
        (DateRange { start, end }).validate()
    }

    /// This range made valid, as [DateRange::of_dates] describes
    pub fn validate(self) -> (r: Self)
        requires
            self.start.value < usize::MAX,
        ensures
            r.wf(),
            self.start.value == 0 ==> r.start.value == 0 && r.end.value == 0,
            self.start.value != 0 && self.end.value == 0 ==> r.start == self.start && r.end.value
                == self.start.value + 1,
            self.start.value != 0 && self.end.value != 0 && self.end.value <= self.start.value
                ==> r.start.value == 0 && r.end.value == 0,
            self.start.value != 0 && self.end.value != 0 && self.start.value < self.end.value ==> r
                == self,
    {
        if self.start.is_none() {
            DateRange { start: Date { value: 0 }, end: Date { value: 0 } }
        } else if self.end.is_none() {
            DateRange { start: self.start, end: self.start.plus_days(1) }
        } else if self.end.value <= self.start.value {
            DateRange { start: Date { value: 0 }, end: Date { value: 0 } }
        } else {
            self
        }
    }

    /// True if the range holds no dates
    pub fn is_empty(&self) -> (r: bool)
        requires
            self.wf(),
        ensures
            r == (self.start.value == 0),
            r <==> (forall|d: usize| !self.spec_contains(d)),
    {
        if self.start.value != 0 {
            assert(self.spec_contains(self.start.value));
        }
        self.start.is_none()
    }

    /// The number of days in the range
    pub fn len(&self) -> (r: usize)
        requires
            self.wf(),
        ensures
            r == self.end.value - self.start.value,
    {
        self.end.value - self.start.value
    }

    /// True if the range holds `date`
    pub fn contains(&self, date: Date) -> (r: bool)
        ensures
            r == self.spec_contains(date.value),
    {
        if date.is_none() {
            false
        } else if self.start.is_none() {
            false
        } else {
            self.start.value <= date.value && date.value < self.end.value
        }
    }

    /// The first day of the range
    pub fn start(&self) -> (r: Date)
        ensures
            r == self.start,
    {
        self.start
    }

    /// The day after the last day of the range
    pub fn end(&self) -> (r: Date)
        ensures
            r == self.end,
    {
        self.end
    }
}

/// True if the two strings hold the same characters
pub fn str_eq(a: &str, b: &str) -> (r: bool)
    ensures
        r == (a@ == b@),
{
    let x = a.to_owned();
    let y = b.to_owned();
    x == y
}

} // verus!
