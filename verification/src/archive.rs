//! The concert-archive listing: calendar arithmetic for the archive's date
//! parameter, the archive URL, and cleanup of scraped listing entries.

use vstd::prelude::*;
use vstd::string::StrSliceExecFns;

use crate::textops::char_is_whitespace;
use crate::textops::dec_digits;
use crate::textops::is_whitespace_char;
use crate::textops::replace_all;
use crate::textops::replaced;
use crate::textops::trim_str;
use crate::textops::trimmed;
use crate::textops::u64_to_dec;

verus! {

/// Whether a year has a 29th of February.
pub open spec fn is_leap_year(year: int) -> bool {
    year % 4 == 0 && (year % 100 != 0 || year % 400 == 0)
}

/// The number of days in a month.
pub open spec fn last_day_of_month_spec(year: int, month: int) -> int {
    if month == 2 {
        if is_leap_year(year) {
            29
        } else {
            28
        }
    } else if month == 4 || month == 6 || month == 9 || month == 11 {
        30
    } else {
        31
    }
}

/// The last day of a month.
pub fn get_last_day_of_month(year: i32, month: u32) -> (r: u32)
    requires
        1 <= month <= 12,
    ensures
        r == last_day_of_month_spec(year as int, month as int),
{
    if month == 2 {
        let leap = year % 4 == 0 && (year % 100 != 0 || year % 400 == 0);
        if leap {
            29
        } else {
            28
        }
    } else if month == 4 || month == 6 || month == 9 || month == 11 {
        30
    } else {
        31
    }
}

/// A number written in two decimal digits at least.
pub open spec fn two_digit_spec(n: int) -> Seq<char> {
    if n < 10 {
        "0"@ + dec_digits(n)
    } else {
        dec_digits(n)
    }
}

/// Writes a day or month number with a leading zero when below ten.
pub fn two_digit(n: u32) -> (r: String)
    ensures
        r@ == two_digit_spec(n as int),
{
    if n < 10 {
        let mut out = String::new();
        out.append("0");
        let num = u64_to_dec(n as u64);
        out.append(num.as_str());
        out
    } else {
        u64_to_dec(n as u64)
    }
}

/// The archive page's address for one date.
pub open spec fn archive_url_spec(year: Seq<char>, month: Seq<char>, day: Seq<char>) -> Seq<char> {
    "https://www.npr.org/series/tiny-desk-concerts/archive?date="@ + month + "-"@ + day + "-"@
        + year
}

/// Builds the archive page's address for one date.
pub fn archive_url(year: &str, month: &str, day: &str) -> (r: String)
    ensures
        r@ == archive_url_spec(year@, month@, day@),
{
    let mut out = String::new();
    out.append("https://www.npr.org/series/tiny-desk-concerts/archive?date=");
    out.append(month);
    out.append("-");
    out.append(day);
    out.append("-");
    out.append(year);
    out
}

/// One concert of the archive listing.
pub struct ConcertListing {
    pub title: String,
    pub url: String,
    pub date: String,
    pub teaser: String,
}

/// The raw values one listing article carries: the title's text, the link's
/// address, the time element's attribute and text, and the teaser's text.
pub struct ArticleData {
    pub title_text: String,
    pub url: String,
    pub date_attr: String,
    pub teaser_text: String,
    pub date_text: String,
}

/// Whether teaser cleanup strips a leading character: whitespace or a bullet.
pub open spec fn is_teaser_junk(c: char) -> bool {
    char_is_whitespace(c) || c == '\u{2022}'
}

/// `s` with leading whitespace and bullets removed.
pub open spec fn trim_teaser_start(s: Seq<char>) -> Seq<char>
    decreases s.len(),
{
    if s.len() > 0 && is_teaser_junk(s[0]) {
        trim_teaser_start(s.drop_first())
    } else {
        s
    }
}

proof fn lemma_trim_teaser_start(s: Seq<char>, i: int)
    requires
        0 <= i <= s.len(),
        forall|k: int| 0 <= k < i ==> is_teaser_junk(#[trigger] s[k]),
        i == s.len() || !is_teaser_junk(s[i]),
    ensures
        trim_teaser_start(s) == s.skip(i),
    decreases i,
{
    if i == 0 {
        assert(s.skip(0) =~= s);
    } else {
        lemma_trim_teaser_start(s.drop_first(), i - 1);
        assert(s.drop_first().skip(i - 1) =~= s.skip(i));
    }
}

/// A teaser cleaned of the date it repeats: the date's text is removed
/// everywhere and leading whitespace and bullets go; an empty date leaves the
/// teaser as it is.
pub open spec fn teaser_spec(teaser_text: Seq<char>, date_text: Seq<char>) -> Seq<char> {
    let full = trimmed(teaser_text);
    let date = trimmed(date_text);
    if date.len() > 0 {
        trim_teaser_start(replaced(full, date, Seq::empty()))
    } else {
        full
    }
}

/// The view of one listing.
pub open spec fn listing_view(l: ConcertListing) -> (Seq<char>, Seq<char>, Seq<char>, Seq<char>) {
    (l.title@, l.url@, l.date@, l.teaser@)
}

/// What one article yields: its trimmed title, its address and date
/// attribute, and its cleaned teaser.
pub open spec fn listing_spec(a: ArticleData) -> (Seq<char>, Seq<char>, Seq<char>, Seq<char>) {
    (trimmed(a.title_text@), a.url@, a.date_attr@, teaser_spec(a.teaser_text@, a.date_text@))
}

/// Cleans one teaser.
fn clean_teaser(teaser_text: &str, date_text: &str) -> (r: String)
    ensures
        r@ == teaser_spec(teaser_text@, date_text@),
{
    let full = trim_str(teaser_text);
    let date = trim_str(date_text);
    if date.unicode_len() > 0 {
        let removed = replace_all(full, date, "");
        proof {
            reveal_strlit("");
            assert(""@ =~= Seq::<char>::empty());
        }
        let n: usize = removed.as_str().unicode_len();
        let mut lo: usize = 0;
        while lo < n && is_teaser_junk_exec(removed.as_str().get_char(lo))
            invariant
                n == removed@.len(),
                0 <= lo <= n,
                forall|k: int| 0 <= k < lo ==> is_teaser_junk(#[trigger] removed@[k]),
            decreases n - lo,
        {
            lo = lo + 1;
        }
        proof {
            lemma_trim_teaser_start(removed@, lo as int);
        }
        let r = removed.as_str().substring_char(lo, n);
        proof {
            assert(r@ =~= removed@.skip(lo as int));
        }
        r.to_owned()
    } else {
        full.to_owned()
    }
}

/// Decides whether teaser cleanup strips a character.
fn is_teaser_junk_exec(c: char) -> (r: bool)
    ensures
        r == is_teaser_junk(c),
{
    is_whitespace_char(c) || c == '\u{2022}'
}

/// Turns the scraped articles into the archive's concert listings, in order.
pub fn extract_listings(articles: &Vec<ArticleData>) -> (r: Vec<ConcertListing>)
    ensures
        r.len() == articles.len(),
        forall|i: int|
            0 <= i < r.len() ==> listing_view(#[trigger] r@[i]) == listing_spec(articles@[i]),
{
    let mut out: Vec<ConcertListing> = Vec::new();
    let mut i: usize = 0;
    while i < articles.len()
        invariant
            0 <= i <= articles.len(),
            out.len() == i,
            forall|k: int|
                0 <= k < i ==> listing_view(#[trigger] out@[k]) == listing_spec(articles@[k]),
        decreases articles.len() - i,
    {
        let a = &articles[i];
        let title = trim_str(a.title_text.as_str()).to_owned();
        let teaser = clean_teaser(a.teaser_text.as_str(), a.date_text.as_str());
        out.push(
            ConcertListing { title, url: a.url.clone(), date: a.date_attr.clone(), teaser },
        );
        i = i + 1;
    }
    out
}

} // verus!
