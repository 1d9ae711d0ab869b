//! Extraction of concert information from a parsed concert page: the artist,
//! story title, date, description, set list, and musicians. The page is held
//! as plain values: the title text, header fields, and the story's paragraphs
//! and lists in document order.

use vstd::prelude::*;
use vstd::string::StrSliceExecFns;

use crate::concert::Song;
use crate::textops::joined;
use crate::textops::join_strings;
use crate::textops::seq_contains_sub;
use crate::textops::replace_all;
use crate::textops::replaced;
use crate::textops::split_on;
use crate::textops::split_on_char;
use crate::textops::starts_with_str;
use crate::textops::trim_str;
use crate::textops::trimmed;
use crate::textops::upper_of;
use crate::textops::uppercase;

verus! {

/// One musician of the set, with the instruments credited to them.
pub struct Musician {
    pub name: String,
    pub instruments: Vec<String>,
}

/// Everything scraped from one concert page.
pub struct ConcertInfo {
    pub artist: String,
    pub source: String,
    pub show: String,
    pub date: Option<String>,
    pub album: Option<String>,
    pub description: Option<String>,
    pub set_list: Vec<Song>,
    pub musicians: Vec<Musician>,
}

/// One block of the story text, in document order: a paragraph's text, or a
/// list's item texts.
pub enum StoryNode {
    Para(String),
    List(Vec<String>),
}

/// A concert page reduced to the values the extraction reads: the page
/// title's text, the story title's text, the date attribute, and the story
/// blocks.
pub struct ConcertPage {
    pub title: String,
    pub story_title: Option<String>,
    pub date: Option<String>,
    pub story: Option<Vec<StoryNode>>,
}

/// Why a concert page cannot be parsed.
pub enum ScrapeError {
    EmptyTitle,
    NoStoryTitle,
    NoDate,
    NoSetList,
    NoMusicians,
    MusiciansTextNotFound,
    BadMusicianEntry(String),
    EmptyArtistName,
}

impl ScrapeError {
    /// The error's diagnostic message.
    pub fn message(&self) -> (r: String)
        ensures
            match self {
                ScrapeError::EmptyTitle => r@ == "Title is empty"@,
                ScrapeError::NoStoryTitle => r@ == "No story title found"@,
                ScrapeError::NoDate => r@ == "No date found"@,
                ScrapeError::NoSetList => r@ == "No set list found"@,
                ScrapeError::NoMusicians => r@ == "No musicians list found"@,
                ScrapeError::MusiciansTextNotFound => r@ == "musicians text not found on page"@,
                ScrapeError::BadMusicianEntry(parts) => r@
                    == "Did not understand musician instrument list: "@ + parts@,
                ScrapeError::EmptyArtistName => r@ == "Artist name is empty"@,
            },
    {
        match self {
            ScrapeError::EmptyTitle => "Title is empty".to_owned(),
            ScrapeError::NoStoryTitle => "No story title found".to_owned(),
            ScrapeError::NoDate => "No date found".to_owned(),
            ScrapeError::NoSetList => "No set list found".to_owned(),
            ScrapeError::NoMusicians => "No musicians list found".to_owned(),
            ScrapeError::MusiciansTextNotFound => "musicians text not found on page".to_owned(),
            ScrapeError::BadMusicianEntry(parts) => {
                let mut out = String::new();
                out.append("Did not understand musician instrument list: ");
                out.append(parts.as_str());
                out
            },
            ScrapeError::EmptyArtistName => "Artist name is empty".to_owned(),
        }
    }
}

/// Whether a character is a single or double quote.
pub open spec fn is_quote_char(c: char) -> bool {
    c == '"' || c == '\''
}

/// `s` with leading quote characters removed.
pub open spec fn trim_quote_start(s: Seq<char>) -> Seq<char>
    decreases s.len(),
{
    if s.len() > 0 && is_quote_char(s[0]) {
        trim_quote_start(s.drop_first())
    } else {
        s
    }
}

/// `s` with trailing quote characters removed.
pub open spec fn trim_quote_end(s: Seq<char>) -> Seq<char>
    decreases s.len(),
{
    if s.len() > 0 && is_quote_char(s.last()) {
        trim_quote_end(s.drop_last())
    } else {
        s
    }
}

/// A list item's text cleaned: outer whitespace, then outer quotes, removed.
pub open spec fn cleaned_item(s: Seq<char>) -> Seq<char> {
    trim_quote_end(trim_quote_start(trimmed(s)))
}

proof fn lemma_trim_quote_start(s: Seq<char>, i: int)
    requires
        0 <= i <= s.len(),
        forall|k: int| 0 <= k < i ==> is_quote_char(#[trigger] s[k]),
        i == s.len() || !is_quote_char(s[i]),
    ensures
        trim_quote_start(s) == s.skip(i),
    decreases i,
{
    if i == 0 {
        assert(s.skip(0) =~= s);
    } else {
        lemma_trim_quote_start(s.drop_first(), i - 1);
        assert(s.drop_first().skip(i - 1) =~= s.skip(i));
    }
}

proof fn lemma_trim_quote_end(s: Seq<char>, j: int)
    requires
        0 <= j <= s.len(),
        forall|k: int| j <= k < s.len() ==> is_quote_char(#[trigger] s[k]),
        j == 0 || !is_quote_char(s[j - 1]),
    ensures
        trim_quote_end(s) == s.take(j),
    decreases s.len() - j,
{
    if j == s.len() {
        if s.len() > 0 && is_quote_char(s.last()) {
            lemma_trim_quote_end(s.drop_last(), j - 1);
            assert(s.drop_last().take(j - 1) =~= s.take(j - 1));
            assert(s.take(j as int) =~= s);
            assert(s.drop_last() =~= s.take(j - 1));
        } else {
            assert(s.take(j as int) =~= s);
        }
    } else {
        assert(is_quote_char(s.last()));
        lemma_trim_quote_end(s.drop_last(), j);
        assert(s.drop_last().take(j as int) =~= s.take(j as int));
    }
}

/// Decides whether a character is a single or double quote.
fn is_quote(c: char) -> (r: bool)
    ensures
        r == is_quote_char(c),
{
    c == '"' || c == '\''
}

/// Cleans one list item: trims whitespace, then surrounding quotes.
fn clean_item(s: &str) -> (r: String)
    ensures
        r@ == cleaned_item(s@),
{
    let t = trim_str(s);
    let n: usize = t.unicode_len();
    let mut lo: usize = 0;
    while lo < n && is_quote(t.get_char(lo))
        invariant
            n == t@.len(),
            0 <= lo <= n,
            forall|k: int| 0 <= k < lo ==> is_quote_char(#[trigger] t@[k]),
        decreases n - lo,
    {
        lo = lo + 1;
    }
    proof {
        lemma_trim_quote_start(t@, lo as int);
    }
    let mut hi: usize = n;
    while hi > lo && is_quote(t.get_char(hi - 1))
        invariant
            n == t@.len(),
            0 <= lo <= hi <= n,
            forall|k: int| hi <= k < n ==> is_quote_char(#[trigger] t@[k]),
        decreases hi,
    {
        hi = hi - 1;
    }
    let r = t.substring_char(lo, hi);
    proof {
        let u = t@.skip(lo as int);
        assert forall|k: int| hi - lo <= k < u.len() implies is_quote_char(#[trigger] u[k]) by {
            assert(u[k] == t@[k + lo]);
        }
        if hi > lo {
            assert(u[hi - lo - 1] == t@[hi - 1]);
        }
        lemma_trim_quote_end(u, hi - lo);
        assert(u.take(hi - lo) =~= t@.subrange(lo as int, hi as int));
    }
    r.to_owned()
}

/// `s` without the given suffix, when it ends with it.
pub open spec fn strip_suffix_spec(s: Seq<char>, suffix: Seq<char>) -> Seq<char> {
    if suffix.is_suffix_of(s) {
        s.take(s.len() - suffix.len())
    } else {
        s
    }
}

/// Removes the suffix when `s` ends with it, else keeps `s`.
pub fn strip_suffix<'a>(s: &'a str, suffix: &str) -> (r: &'a str)
    ensures
        r@ == strip_suffix_spec(s@, suffix@),
{
    let n: usize = s.unicode_len();
    let m: usize = suffix.unicode_len();
    if m > n {
        return s;
    }
    let tail = s.substring_char(n - m, n);
    proof {
        assert(tail@ =~= s@.skip(n - m));
    }
    if starts_with_str(tail, suffix) {
        proof {
            assert(tail@ =~= suffix@);
            assert(suffix@.is_suffix_of(s@));
        }
        let r = s.substring_char(0, n - m);
        proof {
            assert(r@ =~= s@.take(n - m));
        }
        r
    } else {
        proof {
            assert(suffix@.is_suffix_of(s@) ==> suffix@.is_prefix_of(tail@)) by {
                if suffix@.is_suffix_of(s@) {
                    assert(s@.skip(n - m) =~= suffix@);
                }
            }
        }
        s
    }
}

/// The cleaned texts of a list's items.
pub open spec fn clean_items(items: Seq<Seq<char>>) -> Seq<Seq<char>> {
    Seq::new(items.len(), |i: int| cleaned_item(items[i]))
}

/// The cleaned items of the first list block, skipping other blocks.
pub open spec fn first_list_items(story: Seq<StoryNode>) -> Seq<Seq<char>>
    decreases story.len(),
{
    if story.len() == 0 {
        Seq::empty()
    } else {
        match story[0] {
            StoryNode::List(items) => clean_items(items.deep_view()),
            StoryNode::Para(_) => first_list_items(story.drop_first()),
        }
    }
}

/// The set list the story yields: the cleaned items of the first list block
/// after the first paragraph whose uppercase text holds the set-list marker,
/// or nothing without such a paragraph.
pub open spec fn set_list_spec(story: Seq<StoryNode>) -> Seq<Seq<char>>
    decreases story.len(),
{
    if story.len() == 0 {
        Seq::empty()
    } else {
        match story[0] {
            StoryNode::Para(p) => if seq_contains_sub(upper_of(p@), "SET LIST"@) {
                first_list_items(story.drop_first())
            } else {
                set_list_spec(story.drop_first())
            },
            StoryNode::List(_) => set_list_spec(story.drop_first()),
        }
    }
}

/// Builds songs from the cleaned items of a list.
fn songs_from_items(items: &Vec<String>) -> (r: Vec<Song>)
    ensures
        crate::segments::titles_of(r@) == clean_items(items.deep_view()),
{
    let mut out: Vec<Song> = Vec::new();
    let mut k: usize = 0;
    while k < items.len()
        invariant
            0 <= k <= items.len(),
            out.len() == k,
            forall|m: int|
                0 <= m < k ==> (#[trigger] out@[m]).title@ == cleaned_item(items.deep_view()[m]),
        decreases items.len() - k,
    {
        let title = clean_item(items[k].as_str());
        out.push(Song { title });
        k = k + 1;
    }
    proof {
        assert(crate::segments::titles_of(out@) =~= clean_items(items.deep_view()));
    }
    out
}

/// Extracts the set list: the cleaned items of the first list following the
/// paragraph that announces it. Yields an empty list, never an error, when
/// the story has no such section.
pub fn extract_set_list(story: &Vec<StoryNode>) -> (r: Result<Vec<Song>, ScrapeError>)
    ensures
        r matches Ok(songs) && crate::segments::titles_of(songs@) == set_list_spec(story@),
{
    proof {
        reveal_strlit("SET LIST");
    }
    let mut i: usize = 0;
    proof {
        assert(story@.skip(0) =~= story@);
    }
    while i < story.len()
        invariant
            0 <= i <= story.len(),
            set_list_spec(story@) == set_list_spec(story@.skip(i as int)),
        decreases story.len() - i,
    {
        proof {
            assert(story@.skip(i as int)[0] == story@[i as int]);
            assert(story@.skip(i as int).drop_first() =~= story@.skip(i + 1));
        }
        match &story[i] {
            StoryNode::Para(p) => {
                let upper = uppercase(p.as_str());
                if crate::textops::contains_sub(upper.as_str(), "SET LIST") {
                    let mut j: usize = i + 1;
                    while j < story.len()
                        invariant
                            i < j <= story.len(),
                            set_list_spec(story@) == first_list_items(story@.skip(j as int)),
                        decreases story.len() - j,
                    {
                        proof {
                            assert(story@.skip(j as int)[0] == story@[j as int]);
                            assert(story@.skip(j as int).drop_first() =~= story@.skip(j + 1));
                        }
                        match &story[j] {
                            StoryNode::List(items) => {
                                return Ok(songs_from_items(items));
                            },
                            StoryNode::Para(_) => {},
                        }
                        j = j + 1;
                    }
                    proof {
                        assert(story@.skip(story.len() as int) =~= Seq::<StoryNode>::empty());
                        assert(crate::segments::titles_of(Seq::<Song>::empty()) =~= Seq::<
                            Seq<char>,
                        >::empty());
                    }
                    return Ok(Vec::new());
                }
            },
            StoryNode::List(_) => {},
        }
        i = i + 1;
    }
    proof {
        assert(story@.skip(story.len() as int) =~= Seq::<StoryNode>::empty());
        assert(crate::segments::titles_of(Seq::<Song>::empty()) =~= Seq::<Seq<char>>::empty());
    }
    Ok(Vec::new())
}

/// The view of one musician.
pub open spec fn musician_view(m: Musician) -> (Seq<char>, Seq<Seq<char>>) {
    (m.name@, m.instruments.deep_view())
}

/// The pieces of `s` around `c`, each trimmed.
pub open spec fn split_trimmed(s: Seq<char>, c: char) -> Seq<Seq<char>> {
    Seq::new(split_on(s, c).len(), |i: int| trimmed(split_on(s, c)[i]))
}

/// The musician one cleaned list item yields: a name and instruments around
/// a colon, or the whole text as a name without instruments.
pub open spec fn musician_from_item(text: Seq<char>) -> (Seq<char>, Seq<Seq<char>>) {
    let parts = split_on(text, ':');
    if parts.len() == 2 {
        (trimmed(parts[0]), split_trimmed(parts[1], ','))
    } else {
        (text, Seq::empty())
    }
}

/// The musicians a list block yields, one per item.
pub open spec fn musicians_from_list(items: Seq<Seq<char>>) -> Seq<(Seq<char>, Seq<Seq<char>>)> {
    Seq::new(items.len(), |i: int| musician_from_item(cleaned_item(items[i])))
}

/// The musician one semicolon chunk of a paragraph yields: a name and a
/// parenthesized instrument list, or nothing when the chunk has another form.
pub open spec fn musician_from_chunk(chunk: Seq<char>) -> Option<(Seq<char>, Seq<Seq<char>>)> {
    let parts = split_on(strip_suffix_spec(chunk, ")"@), '(');
    if parts.len() == 2 {
        Some((parts[0], split_trimmed(parts[1], ',')))
    } else {
        None
    }
}

/// The diagnostic payload for a chunk that cannot be read.
pub open spec fn bad_chunk_payload(chunk: Seq<char>) -> Seq<char> {
    joined(split_on(strip_suffix_spec(chunk, ")"@), '('), ", "@)
}

/// The musicians a paragraph's semicolon chunks yield, or the payload of the
/// first unreadable chunk.
pub open spec fn musicians_from_chunks(chunks: Seq<Seq<char>>) -> Result<
    Seq<(Seq<char>, Seq<Seq<char>>)>,
    Seq<char>,
>
    decreases chunks.len(),
{
    if chunks.len() == 0 {
        Ok(Seq::empty())
    } else {
        match musician_from_chunk(chunks[0]) {
            Some(m) => match musicians_from_chunks(chunks.drop_first()) {
                Ok(rest) => Ok(seq![m] + rest),
                Err(e) => Err(e),
            },
            None => Err(bad_chunk_payload(chunks[0])),
        }
    }
}

/// The musicians the story yields once the announcing paragraph is passed:
/// from the first list block, one musician per item; from a paragraph block
/// instead, one per semicolon chunk (or the first unreadable chunk's
/// payload); none when no block follows.
pub open spec fn musicians_after(story: Seq<StoryNode>) -> Result<
    Seq<(Seq<char>, Seq<Seq<char>>)>,
    Option<Seq<char>>,
>
    decreases story.len(),
{
    if story.len() == 0 {
        Ok(Seq::empty())
    } else {
        match story[0] {
            StoryNode::List(items) => Ok(musicians_from_list(items.deep_view())),
            StoryNode::Para(p) => match musicians_from_chunks(split_on(p@, ';')) {
                Ok(m) => Ok(m),
                Err(e) => Err(Some(e)),
            },
        }
    }
}

/// What extracting musicians from the story gives: the block after the first
/// paragraph reading exactly the musicians marker, or a missing-marker
/// failure (the error's `None` case).
pub open spec fn musicians_outcome(story: Seq<StoryNode>) -> Result<
    Seq<(Seq<char>, Seq<Seq<char>>)>,
    Option<Seq<char>>,
>
    decreases story.len(),
{
    if story.len() == 0 {
        Err(None)
    } else {
        match story[0] {
            StoryNode::Para(p) => if upper_of(trimmed(p@)) == "MUSICIANS"@ {
                musicians_after(story.drop_first())
            } else {
                musicians_outcome(story.drop_first())
            },
            StoryNode::List(_) => musicians_outcome(story.drop_first()),
        }
    }
}

/// Splits on a separator and trims each piece.
fn split_and_trim(s: &str, c: char) -> (r: Vec<String>)
    ensures
        r.deep_view() == split_trimmed(s@, c),
{
    let pieces = split_on_char(s, c);
    let ghost pv = pieces.deep_view();
    let mut out: Vec<String> = Vec::new();
    let mut k: usize = 0;
    while k < pieces.len()
        invariant
            pv == pieces.deep_view(),
            pv.len() == pieces.len(),
            0 <= k <= pieces.len(),
            out.len() == k,
            forall|m: int| 0 <= m < k ==> out.deep_view()[m] == trimmed(#[trigger] pv[m]),
        decreases pieces.len() - k,
    {
        proof {
            assert(pv[k as int] == pieces@[k as int]@);
        }
        let t = trim_str(pieces[k].as_str());
        out.push(t.to_owned());
        k = k + 1;
    }
    proof {
        assert(out.deep_view() =~= split_trimmed(s@, c));
    }
    out
}

/// Builds the musicians of one list block.
fn musicians_from_items(items: &Vec<String>) -> (r: Vec<Musician>)
    ensures
        r@.map_values(|m: Musician| musician_view(m)) == musicians_from_list(items.deep_view()),
{
    let mut out: Vec<Musician> = Vec::new();
    let mut k: usize = 0;
    while k < items.len()
        invariant
            0 <= k <= items.len(),
            out.len() == k,
            forall|m: int|
                0 <= m < k ==> musician_view(#[trigger] out@[m]) == musician_from_item(
                    cleaned_item(items.deep_view()[m]),
                ),
        decreases items.len() - k,
    {
        let text = clean_item(items[k].as_str());
        let parts = split_on_char(text.as_str(), ':');
        proof {
            assert(parts.deep_view().len() == parts@.len());
        }
        let musician: Musician = if parts.len() == 2 {
            proof {
                assert(parts.deep_view()[0] == parts@[0]@);
                assert(parts.deep_view()[1] == parts@[1]@);
            }
            let name = trim_str(parts[0].as_str()).to_owned();
            let instruments = split_and_trim(parts[1].as_str(), ',');
            Musician { name, instruments }
        } else {
            Musician { name: text, instruments: Vec::new() }
        };
        proof {
            assert(musician.instruments.deep_view() =~= musician_view(musician).1);
        }
        out.push(musician);
        k = k + 1;
    }
    proof {
        assert(out@.map_values(|m: Musician| musician_view(m)) =~= musicians_from_list(
            items.deep_view(),
        ));
    }
    out
}

/// Builds the musicians of one paragraph block, or reports the first
/// unreadable chunk.
fn musicians_from_para(text: &str) -> (r: Result<Vec<Musician>, ScrapeError>)
    ensures
        match r {
            Ok(ms) => musicians_from_chunks(split_on(text@, ';')) == Ok::<_, Seq<char>>(
                ms@.map_values(|m: Musician| musician_view(m)),
            ),
            Err(e) => e matches ScrapeError::BadMusicianEntry(p) && musicians_from_chunks(
                split_on(text@, ';'),
            ) == Err::<Seq<(Seq<char>, Seq<Seq<char>>)>, _>(p@),
        },
{
    proof {
        reveal_strlit(")");
    }
    let chunks = split_on_char(text, ';');
    let ghost cv = chunks.deep_view();
    let mut out: Vec<Musician> = Vec::new();
    let mut k: usize = 0;
    proof {
        assert(cv.skip(0) =~= cv);
    }
    while k < chunks.len()
        invariant
            cv == chunks.deep_view(),
            cv == split_on(text@, ';'),
            cv.len() == chunks.len(),
            0 <= k <= chunks.len(),
            musicians_from_chunks(cv) == (match musicians_from_chunks(cv.skip(k as int)) {
                Ok(rest) => Ok::<_, Seq<char>>(
                    out@.map_values(|m: Musician| musician_view(m)) + rest,
                ),
                Err(e) => Err(e),
            }),
        decreases chunks.len() - k,
    {
        proof {
            assert(cv.skip(k as int)[0] == chunks@[k as int]@);
            assert(cv.skip(k as int).drop_first() =~= cv.skip(k + 1));
        }
        let stripped = strip_suffix(chunks[k].as_str(), ")");
        let parts = split_on_char(stripped, '(');
        proof {
            assert(parts.deep_view().len() == parts@.len());
        }
        if parts.len() == 2 {
            proof {
                assert(parts.deep_view()[0] == parts@[0]@);
                assert(parts.deep_view()[1] == parts@[1]@);
            }
            let name = parts[0].clone();
            let instruments = split_and_trim(parts[1].as_str(), ',');
            let musician = Musician { name, instruments };
            let ghost prev = out@.map_values(|m: Musician| musician_view(m));
            let ghost mv = musician_view(musician);
            out.push(musician);
            proof {
                let f = |m: Musician| musician_view(m);
                assert(out@.map_values(f) =~= prev.push(mv));
                assert(mv == musician_from_chunk(cv.skip(k as int)[0])->Some_0);
                if musicians_from_chunks(cv.skip(k + 1)) is Ok {
                    let rest = musicians_from_chunks(cv.skip(k + 1))->Ok_0;
                    assert(prev + (seq![mv] + rest) =~= prev.push(mv) + rest);
                }
            }
        } else {
            let payload = join_strings(&parts, ", ");
            proof {
                assert(payload@ == bad_chunk_payload(cv.skip(k as int)[0]));
                assert(musician_from_chunk(cv.skip(k as int)[0]) is None);
                assert(musicians_from_chunks(cv.skip(k as int)) == Err::<
                    Seq<(Seq<char>, Seq<Seq<char>>)>,
                    Seq<char>,
                >(payload@));
            }
            return Err(ScrapeError::BadMusicianEntry(payload));
        }
        k = k + 1;
    }
    proof {
        assert(cv.skip(chunks.len() as int) =~= Seq::<Seq<char>>::empty());
        assert(out@.map_values(|m: Musician| musician_view(m)) + Seq::<
            (Seq<char>, Seq<Seq<char>>),
        >::empty() =~= out@.map_values(|m: Musician| musician_view(m)));
    }
    Ok(out)
}

/// Extracts the musicians: the list or paragraph block after the paragraph
/// that announces them. Fails when that paragraph is missing, or when a
/// paragraph block's entry cannot be read.
pub fn extract_musicians(story: &Vec<StoryNode>) -> (r: Result<Vec<Musician>, ScrapeError>)
    ensures
        match r {
            Ok(ms) => musicians_outcome(story@) == Ok::<_, Option<Seq<char>>>(
                ms@.map_values(|m: Musician| musician_view(m)),
            ),
            Err(e) => match e {
                ScrapeError::MusiciansTextNotFound => musicians_outcome(story@) == Err::<
                    Seq<(Seq<char>, Seq<Seq<char>>)>,
                    _,
                >(None::<Seq<char>>),
                ScrapeError::BadMusicianEntry(p) => musicians_outcome(story@) == Err::<
                    Seq<(Seq<char>, Seq<Seq<char>>)>,
                    _,
                >(Some(p@)),
                _ => false,
            },
        },
{
    proof {
        reveal_strlit("MUSICIANS");
    }
    let mut i: usize = 0;
    proof {
        assert(story@.skip(0) =~= story@);
    }
    while i < story.len()
        invariant
            0 <= i <= story.len(),
            musicians_outcome(story@) == musicians_outcome(story@.skip(i as int)),
        decreases story.len() - i,
    {
        proof {
            assert(story@.skip(i as int)[0] == story@[i as int]);
            assert(story@.skip(i as int).drop_first() =~= story@.skip(i + 1));
        }
        match &story[i] {
            StoryNode::Para(p) => {
                let t = trim_str(p.as_str());
                let upper = uppercase(t);
                let is_marker = upper.as_str().unicode_len() == 9 && crate::textops::starts_with_str(
                    upper.as_str(),
                    "MUSICIANS",
                );
                proof {
                    reveal_strlit("MUSICIANS");
                    assert(is_marker == (upper_of(trimmed(p@)) == "MUSICIANS"@)) by {
                        reveal_strlit("MUSICIANS");
                        assert("MUSICIANS"@.len() == 9);
                        if is_marker {
                            assert(upper@ =~= "MUSICIANS"@);
                        }
                        if upper_of(trimmed(p@)) == "MUSICIANS"@ {
                            assert(upper@.len() == 9);
                        }
                    }
                }
                if is_marker {
                    let ghost after = story@.skip(i + 1);
                    if i + 1 >= story.len() {
                        let empty_vec: Vec<Musician> = Vec::new();
                        proof {
                            assert(after =~= Seq::<StoryNode>::empty());
                            assert(musicians_after(after) == Ok::<_, Option<Seq<char>>>(Seq::<
                                (Seq<char>, Seq<Seq<char>>),
                            >::empty()));
                            assert(empty_vec@.map_values(|m: Musician| musician_view(m)) =~= Seq::<
                                (Seq<char>, Seq<Seq<char>>),
                            >::empty());
                        }
                        return Ok(empty_vec);
                    }
                    proof {
                        assert(after[0] == story@[i + 1]);
                    }
                    match &story[i + 1] {
                        StoryNode::List(items) => {
                            return Ok(musicians_from_items(items));
                        },
                        StoryNode::Para(ptext) => {
                            return musicians_from_para(ptext.as_str());
                        },
                    }
                }
            },
            StoryNode::List(_) => {},
        }
        i = i + 1;
    }
    proof {
        assert(story@.skip(story.len() as int) =~= Seq::<StoryNode>::empty());
    }
    Err(ScrapeError::MusiciansTextNotFound)
}

/// The texts of the story's paragraph blocks, in order.
pub open spec fn para_texts(story: Seq<StoryNode>) -> Seq<Seq<char>>
    decreases story.len(),
{
    if story.len() == 0 {
        Seq::empty()
    } else {
        match story[0] {
            StoryNode::Para(p) => seq![p@] + para_texts(story.drop_first()),
            StoryNode::List(_) => para_texts(story.drop_first()),
        }
    }
}

/// The description text accumulated from paragraphs until the set-list or
/// musicians marker: paragraphs are joined with blank lines; the marker and
/// everything after it contribute nothing.
pub open spec fn desc_rec(paras: Seq<Seq<char>>, acc: Seq<char>, done: bool) -> Seq<char>
    decreases paras.len(),
{
    if paras.len() == 0 {
        acc
    } else {
        let up = upper_of(trimmed(paras[0]));
        if up == "SET LIST"@ || up == "MUSICIANS"@ {
            desc_rec(paras.drop_first(), acc, true)
        } else if done {
            desc_rec(paras.drop_first(), acc, true)
        } else {
            desc_rec(
                paras.drop_first(),
                if acc.len() == 0 {
                    paras[0]
                } else {
                    acc + "\n\n"@ + paras[0]
                },
                false,
            )
        }
    }
}

/// The story's description text.
pub open spec fn description_spec(story: Seq<StoryNode>) -> Seq<char> {
    desc_rec(para_texts(story), Seq::empty(), false)
}

/// Assembles the story's description.
fn build_description(story: &Vec<StoryNode>) -> (r: String)
    ensures
        r@ == description_spec(story@),
{
    proof {
        reveal_strlit("SET LIST");
        reveal_strlit("MUSICIANS");
    }
    let mut acc = String::new();
    let mut done = false;
    let mut i: usize = 0;
    proof {
        assert(story@.skip(0) =~= story@);
        assert(para_texts(story@.skip(0)) =~= para_texts(story@));
    }
    while i < story.len()
        invariant
            0 <= i <= story.len(),
            description_spec(story@) == desc_rec(para_texts(story@.skip(i as int)), acc@, done),
        decreases story.len() - i,
    {
        proof {
            assert(story@.skip(i as int)[0] == story@[i as int]);
            assert(story@.skip(i as int).drop_first() =~= story@.skip(i + 1));
        }
        match &story[i] {
            StoryNode::Para(p) => {
                proof {
                    let pts = para_texts(story@.skip(i as int));
                    assert(pts == seq![p@] + para_texts(story@.skip(i + 1)));
                    assert(pts[0] == p@);
                    assert(pts.drop_first() =~= para_texts(story@.skip(i + 1)));
                }
                let t = trim_str(p.as_str());
                let upper = uppercase(t);
                let is_setlist = str_equals(upper.as_str(), "SET LIST");
                let is_musicians = str_equals(upper.as_str(), "MUSICIANS");
                if is_setlist || is_musicians {
                    done = true;
                } else if !done {
                    if acc.as_str().is_empty() {
                        acc = p.clone();
                    } else {
                        acc.append("\n\n");
                        acc.append(p.as_str());
                    }
                }
            },
            StoryNode::List(_) => {
                proof {
                    assert(para_texts(story@.skip(i as int)) =~= para_texts(story@.skip(i + 1)));
                }
            },
        }
        i = i + 1;
    }
    proof {
        assert(story@.skip(story.len() as int) =~= Seq::<StoryNode>::empty());
        assert(para_texts(Seq::<StoryNode>::empty()) =~= Seq::<Seq<char>>::empty());
    }
    acc
}

/// Whether two strings hold the same characters.
fn str_equals(a: &str, b: &str) -> (r: bool)
    ensures
        r == (a@ == b@),
{
    let n: usize = a.unicode_len();
    let m: usize = b.unicode_len();
    if n != m {
        return false;
    }
    let r = starts_with_str(a, b);
    proof {
        if b@.is_prefix_of(a@) {
            assert(a@ =~= b@);
        }
    }
    r
}

/// What extracting the whole story gives: the description (when non-empty),
/// the set list, and the musicians, or the musicians' failure.
pub open spec fn content_outcome(story: Seq<StoryNode>) -> Result<
    (Seq<char>, Seq<Seq<char>>, Seq<(Seq<char>, Seq<Seq<char>>)>),
    Option<Seq<char>>,
> {
    match musicians_outcome(story) {
        Ok(ms) => Ok((description_spec(story), set_list_spec(story), ms)),
        Err(e) => Err(e),
    }
}

/// Extracts the description, set list, and musicians from the story.
/// A missing story container yields empty content; otherwise the musicians'
/// failures propagate.
pub fn extract_content(story: &Option<Vec<StoryNode>>) -> (r: Result<
    (Option<String>, Vec<Song>, Vec<Musician>),
    ScrapeError,
>)
    ensures
        match story {
            None => r matches Ok(t) && t.0 is None && t.1@.len() == 0 && t.2@.len() == 0,
            Some(st) => match r {
                Ok(t) => {
                    &&& musicians_outcome(st@) == Ok::<_, Option<Seq<char>>>(
                        t.2@.map_values(|m: Musician| musician_view(m)),
                    )
                    &&& crate::segments::titles_of(t.1@) == set_list_spec(st@)
                    &&& (match t.0 {
                        Some(d) => d@ == description_spec(st@) && d@.len() > 0,
                        None => description_spec(st@).len() == 0,
                    })
                },
                Err(e) => match e {
                    ScrapeError::MusiciansTextNotFound => musicians_outcome(st@) == Err::<
                        Seq<(Seq<char>, Seq<Seq<char>>)>,
                        _,
                    >(None::<Seq<char>>),
                    ScrapeError::BadMusicianEntry(p) => musicians_outcome(st@) == Err::<
                        Seq<(Seq<char>, Seq<Seq<char>>)>,
                        _,
                    >(Some(p@)),
                    _ => false,
                },
            },
        },
{
    match story {
        None => Ok((None, Vec::new(), Vec::new())),
        Some(st) => {
            let desc_text = build_description(st);
            let description: Option<String> = if desc_text.as_str().is_empty() {
                None
            } else {
                Some(desc_text)
            };
            let set_list = match extract_set_list(st) {
                Ok(songs) => songs,
                Err(e) => {
                    return Err(e);
                },
            };
            let musicians = match extract_musicians(st) {
                Ok(ms) => ms,
                Err(e) => {
                    return Err(e);
                },
            };
            Ok((description, set_list, musicians))
        },
    }
}

/// The artist name a page title yields: everything before the first colon,
/// trimmed.
pub open spec fn artist_spec(title: Seq<char>) -> Seq<char> {
    trimmed(split_on(title, ':')[0])
}

/// Parses one concert page into its concert information. The artist comes
/// from the page title; the story title becomes the album; extraction fails
/// on an empty artist, a missing story title or date, an unreadable musician
/// entry, and an empty set list or musician list, in that order.
pub fn parse_concert_info(page: &ConcertPage, source_url: &str) -> (r: Result<
    ConcertInfo,
    ScrapeError,
>)
    ensures
        r matches Err(ScrapeError::EmptyTitle) <==> artist_spec(page.title@).len() == 0,
        artist_spec(page.title@).len() > 0 && page.story_title is Some && page.date is Some && (
        match page.story {
            Some(st) => musicians_outcome(st@) matches Ok(ms) && ms.len() > 0 && set_list_spec(
                st@,
            ).len() > 0,
            None => false,
        }) ==> r is Ok,
        artist_spec(page.title@).len() > 0 ==> (r matches Err(ScrapeError::NoStoryTitle)
            <==> page.story_title is None),
        artist_spec(page.title@).len() > 0 && page.story_title is Some ==> (r matches Err(
            ScrapeError::NoDate,
        ) <==> page.date is None),
        r matches Ok(info) ==> {
            &&& artist_spec(page.title@).len() > 0
            &&& info.artist@ == artist_spec(page.title@)
            &&& info.source@ == source_url@
            &&& info.show@ == "Tiny Desk Concerts"@
            &&& page.story_title matches Some(t) && info.album matches Some(a) && a@ == trimmed(
                t@,
            )
            &&& page.date matches Some(d) && info.date matches Some(d2) && d2@ == d@
            &&& (match page.story {
                Some(st) => {
                    &&& crate::segments::titles_of(info.set_list@) == set_list_spec(st@)
                    &&& info.set_list@.len() > 0
                    &&& musicians_outcome(st@) == Ok::<_, Option<Seq<char>>>(
                        info.musicians@.map_values(|m: Musician| musician_view(m)),
                    )
                    &&& info.musicians@.len() > 0
                    &&& (match info.description {
                        Some(d) => d@ == description_spec(st@) && d@.len() > 0,
                        None => description_spec(st@).len() == 0,
                    })
                },
                None => false,
            })
        },
        artist_spec(page.title@).len() > 0 && page.story_title is Some && page.date is Some ==> (
        r matches Err(ScrapeError::MusiciansTextNotFound) <==> (match page.story {
            Some(st) => musicians_outcome(st@) == Err::<Seq<(Seq<char>, Seq<Seq<char>>)>, _>(
                None::<Seq<char>>,
            ),
            None => false,
        })),
        r matches Err(ScrapeError::BadMusicianEntry(p)) ==> (match page.story {
            Some(st) => musicians_outcome(st@) == Err::<Seq<(Seq<char>, Seq<Seq<char>>)>, _>(
                Some(p@),
            ),
            None => false,
        }),
        artist_spec(page.title@).len() > 0 && page.story_title is Some && page.date is Some && (
        match page.story {
            Some(st) => musicians_outcome(st@) matches Err(Some(x)),
            None => false,
        }) ==> (r matches Err(ScrapeError::BadMusicianEntry(p))),
        artist_spec(page.title@).len() > 0 && page.story_title is Some && page.date is Some ==> (
        r matches Err(ScrapeError::NoSetList) <==> (match page.story {
            Some(st) => musicians_outcome(st@) is Ok && set_list_spec(st@).len() == 0,
            None => true,
        })),
        artist_spec(page.title@).len() > 0 && page.story_title is Some && page.date is Some ==> (
        r matches Err(ScrapeError::NoMusicians) <==> (match page.story {
            Some(st) => musicians_outcome(st@) matches Ok(ms) && set_list_spec(st@).len() > 0
                && ms.len() == 0,
            None => false,
        })),
{
    let k = crate::textops::find_char_at(page.title.as_str(), ':');
    proof {
        crate::textops::lemma_find_char_bounds_pub(page.title@, ':');
    }
    let first_piece = page.title.as_str().substring_char(0, k);
    proof {
        assert(split_on(page.title@, ':')[0] == (if 0 <= crate::textops::find_char(
            page.title@,
            ':',
        ) < page.title@.len() {
            page.title@.take(crate::textops::find_char(page.title@, ':'))
        } else {
            page.title@
        }));
        assert(first_piece@ =~= page.title@.take(k as int));
        if k == page.title@.len() {
            assert(first_piece@ =~= page.title@);
        }
    }
    let artist_name = trim_str(first_piece).to_owned();
    if artist_name.as_str().is_empty() {
        return Err(ScrapeError::EmptyTitle);
    }
    let story_title: String = match &page.story_title {
        None => {
            return Err(ScrapeError::NoStoryTitle);
        },
        Some(t) => trim_str(t.as_str()).to_owned(),
    };
    let date: String = match &page.date {
        None => {
            return Err(ScrapeError::NoDate);
        },
        Some(d) => d.clone(),
    };
    let (description, set_list, musicians) = match extract_content(&page.story) {
        Ok(t) => t,
        Err(e) => {
            return Err(e);
        },
    };
    if set_list.len() == 0 {
        return Err(ScrapeError::NoSetList);
    }
    if musicians.len() == 0 {
        return Err(ScrapeError::NoMusicians);
    }
    proof {
        assert(page.story is Some) by {
            if page.story is None {
                assert(set_list@.len() == 0);
            }
        }
    }
    Ok(
        ConcertInfo {
            artist: artist_name,
            source: source_url.to_owned(),
            show: "Tiny Desk Concerts".to_owned(),
            date: Some(date),
            album: Some(story_title),
            description,
            set_list,
            musicians,
        },
    )
}

/// Whether a character of the artist's name is kept in the output filename.
pub open spec fn keeps_for_filename(c: char) -> bool {
    crate::textops::char_is_alphanumeric(c) || crate::textops::char_is_whitespace(c)
}

/// The name of the file the concert information is saved under: the artist's
/// alphanumeric-and-space characters, spaces turned to underscores,
/// lowercased, before an `_info.json` ending.
pub open spec fn info_filename_spec(artist: Seq<char>) -> Seq<char> {
    crate::textops::lower_of(
        replaced(artist.filter(|c: char| keeps_for_filename(c)), " "@, "_"@),
    ) + "_info.json"@
}

/// The sanitized artist part of the output filename.
pub open spec fn info_filename_base(artist: Seq<char>) -> Seq<char> {
    crate::textops::lower_of(replaced(artist.filter(|c: char| keeps_for_filename(c)), " "@, "_"@))
}

/// Names the file the concert information is saved under. Fails exactly when
/// nothing of the artist's name survives sanitizing.
pub fn concert_info_filename(artist: &str) -> (r: Result<String, ScrapeError>)
    ensures
        match r {
            Ok(name) => info_filename_base(artist@).len() > 0 && name@ == info_filename_spec(
                artist@,
            ),
            Err(e) => e is EmptyArtistName && info_filename_base(artist@).len() == 0,
        },
{
    proof {
        reveal_strlit(" ");
    }
    let n: usize = artist.unicode_len();
    let mut kept = String::new();
    let mut i: usize = 0;
    while i < n
        invariant
            n == artist@.len(),
            0 <= i <= n,
            kept@ == artist@.take(i as int).filter(|c: char| keeps_for_filename(c)),
        decreases n - i,
    {
        let c = artist.get_char(i);
        proof {
            reveal(Seq::filter);
            assert(artist@.take(i + 1).drop_last() == artist@.take(i as int));
            assert(artist@.take(i + 1).last() == artist@[i as int]);
        }
        if crate::textops::is_alphanumeric_char(c) || crate::textops::is_whitespace_char(c) {
            crate::textops::push_char(&mut kept, c);
        }
        i = i + 1;
    }
    proof {
        assert(artist@.take(n as int) == artist@);
    }
    let underscored = replace_all(kept.as_str(), " ", "_");
    let sanitized = crate::textops::lowercase(underscored.as_str());
    if sanitized.as_str().is_empty() {
        return Err(ScrapeError::EmptyArtistName);
    }
    let mut out = sanitized;
    out.append("_info.json");
    Ok(out)
}

} // verus!
