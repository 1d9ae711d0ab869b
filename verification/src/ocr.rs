//! Fuzzy matching of OCR-recognized text against expected song titles and the
//! artist name, and parsing of raw OCR engine output into usable lines.

use vstd::prelude::*;
use vstd::string::StrSliceExecFns;
use vstd::string::StringSliceAdditionalSpecFns;

use crate::textops::ascii_of;
use crate::textops::ci_prefix;
use crate::textops::contains_sub;
use crate::textops::lev_weight;
use crate::textops::lowercase;
use crate::textops::matches_at;
use crate::textops::lower_of;
pub use crate::textops::normalize_text;
use crate::textops::normalized;
use crate::textops::remove_spaces;
use crate::textops::seq_contains_sub;
use crate::textops::split_on;
use crate::textops::split_on_char;
use crate::textops::starts_with_ci;
use crate::textops::starts_with_str;
use crate::textops::transliterate;
use crate::textops::trim_str;
use crate::textops::trimmed;
use crate::textops::weighted_levenshtein;
use crate::textops::without_spaces;
use vstd::utf8::encode_utf8;

verus! {

/// Per-operation costs for the weighted edit distance.
#[derive(Clone, Copy, Debug)]
pub struct Weights {
    pub insertion: u32,
    pub deletion: u32,
    pub substitution: u32,
}

/// Weights that tolerate missing leading or trailing characters: OCR often
/// truncates fading text, so deletions are cheap.
pub fn weights_for_greedy_extractor() -> (w: Weights)
    ensures
        w == (Weights { insertion: 2, deletion: 1, substitution: 2 }),
{
    Weights { insertion: 2, deletion: 1, substitution: 2 }
}

/// Weights that favor substitution errors and penalize length mismatch, for
/// passes that want confident matches.
pub fn weights_for_stingy_extractor() -> (w: Weights)
    ensures
        w == (Weights { insertion: 2, deletion: 2, substitution: 1 }),
{
    Weights { insertion: 2, deletion: 2, substitution: 1 }
}

/// Why the first OCR line was not accepted as the artist name.
#[derive(Debug)]
pub enum NoArtistMatchReason {
    EmptyArtist,
    EmptyLine,
    Fallthrough,
}

/// Why the first OCR line was accepted as the artist name.
#[derive(Debug)]
pub enum YesArtistMatchReason {
    StartsWith,
    OffByOne,
}

/// The outcome of matching an OCR line against the artist name.
#[derive(Debug)]
pub enum ArtistMatchReason {
    No(NoArtistMatchReason),
    Yes(YesArtistMatchReason),
}

impl ArtistMatchReason {
    /// Whether the outcome is a match.
    pub fn bool(&self) -> (r: bool)
        ensures
            r == self matches ArtistMatchReason::Yes(_),
    {
        match self {
            ArtistMatchReason::Yes(..) => true,
            ArtistMatchReason::No(..) => false,
        }
    }
}

/// The canonical form used when comparing a line to the artist name: spaces
/// dropped, transliterated to ASCII, lowercased.
pub open spec fn artist_key(s: Seq<char>) -> Seq<char> {
    lower_of(ascii_of(without_spaces(s)))
}

/// The decision the artist-overlay detector takes for the canonicalized pair.
pub open spec fn artist_match_spec(line_in: Seq<char>, artist_in: Seq<char>) -> ArtistMatchReason {
    let line = artist_key(line_in);
    let artist = artist_key(artist_in);
    if artist.len() == 0 {
        ArtistMatchReason::No(NoArtistMatchReason::EmptyArtist)
    } else if line.len() == 0 {
        ArtistMatchReason::No(NoArtistMatchReason::EmptyLine)
    } else if artist.is_prefix_of(line) {
        ArtistMatchReason::Yes(YesArtistMatchReason::StartsWith)
    } else if line.is_prefix_of(artist) && (line.len() > 16 || 10 * line.len() >= 7
        * artist.len()) {
        ArtistMatchReason::Yes(YesArtistMatchReason::StartsWith)
    } else if line.len() > artist.len() * 7 / 10 && line.take((artist.len() * 7 / 10) as int).is_prefix_of(
        artist,
    ) {
        ArtistMatchReason::Yes(YesArtistMatchReason::StartsWith)
    } else if crate::textops::lev_fits(
        artist,
        line,
        Weights { insertion: 1, deletion: 1, substitution: 1 },
    ) && lev_weight(encode_utf8(artist), encode_utf8(line), 11, 1, 1, 1) <= 1 {
        ArtistMatchReason::Yes(YesArtistMatchReason::OffByOne)
    } else if line.len() > artist.len() && crate::textops::lev_fits(
        artist,
        line.take(artist.len() as int),
        Weights { insertion: 1, deletion: 1, substitution: 1 },
    ) && lev_weight(
        encode_utf8(artist),
        encode_utf8(line.take(artist.len() as int)),
        11,
        1,
        1,
        1,
    ) <= 1 {
        ArtistMatchReason::Yes(YesArtistMatchReason::OffByOne)
    } else {
        ArtistMatchReason::No(NoArtistMatchReason::Fallthrough)
    }
}

/// Whether the artist-overlay detector accepts the pair.
pub open spec fn artist_matches(line_in: Seq<char>, artist_in: Seq<char>) -> bool {
    artist_match_spec(line_in, artist_in) matches ArtistMatchReason::Yes(_)
}

/// Canonicalizes one string for artist comparison.
fn artist_canon(s: &str) -> (r: String)
    ensures
        r@ == artist_key(s@),
        s@.len() == 0 ==> r@.len() == 0,
{
    let no_spaces = remove_spaces(s);
    proof {
        if s@.len() == 0 {
            reveal(Seq::filter);
            assert(without_spaces(s@).len() == 0);
        }
    }
    let ascii = transliterate(no_spaces.as_str());
    lowercase(ascii.as_str())
}

/// Decides whether an OCR line is a (possibly corrupted) rendering of the
/// artist name, and says why: either one is a prefix of the other under
/// length guards, or the weighted edit distance is at most one, directly or
/// after truncating the line to the artist's length.
pub fn fuzzy_match_artist_reason(line_input: &str, artist_input: &str) -> (r: ArtistMatchReason)
    ensures
        r == artist_match_spec(line_input@, artist_input@),
        line_input@.len() == 0 || artist_input@.len() == 0 ==> r matches ArtistMatchReason::No(_),
{
    let line = artist_canon(line_input);
    let artist = artist_canon(artist_input);
    let line_len = line.as_str().unicode_len();
    let artist_len = artist.as_str().unicode_len();
    let weights = Weights { insertion: 1, deletion: 1, substitution: 1 };
    if artist_len == 0 {
        return ArtistMatchReason::No(NoArtistMatchReason::EmptyArtist);
    }
    if line_len == 0 {
        return ArtistMatchReason::No(NoArtistMatchReason::EmptyLine);
    }
    if starts_with_str(line.as_str(), artist.as_str()) {
        return ArtistMatchReason::Yes(YesArtistMatchReason::StartsWith);
    }
    let subset_line_length = (line_len as u128) * 10 >= (artist_len as u128) * 7;
    if starts_with_str(artist.as_str(), line.as_str()) && (line_len > 16 || subset_line_length) {
        return ArtistMatchReason::Yes(YesArtistMatchReason::StartsWith);
    }
    let split_at_wide: u128 = (artist_len as u128) * 7 / 10;
    let split_at: usize = split_at_wide as usize;
    proof {
        assert(split_at_wide <= artist_len as u128);
        assert(split_at == artist@.len() * 7 / 10);
    }
    if line_len > split_at {
        let artist_start = line.as_str().substring_char(0, split_at);
        if starts_with_str(artist.as_str(), artist_start) {
            proof {
                assert(artist_start@ =~= artist_key(line_input@).take(
                    (artist_key(artist_input@).len() * 7 / 10) as int,
                ));
            }
            return ArtistMatchReason::Yes(YesArtistMatchReason::StartsWith);
        }
    }
    let levenshtein_limit: u32 = 1;
    let fits_full = crate::textops::lev_call_fits(artist.as_str(), line.as_str(), &weights);
    if fits_full && weighted_levenshtein(
        artist.as_str(),
        line.as_str(),
        levenshtein_limit + 10,
        &weights,
    ) <= levenshtein_limit {
        return ArtistMatchReason::Yes(YesArtistMatchReason::OffByOne);
    }
    if line_len > artist_len {
        let line_t = line.as_str().substring_char(0, artist_len);
        proof {
            assert(line_t@ =~= artist_key(line_input@).take(
                artist_key(artist_input@).len() as int,
            ));
        }
        let fits_t = crate::textops::lev_call_fits(artist.as_str(), line_t, &weights);
        if fits_t && weighted_levenshtein(artist.as_str(), line_t, levenshtein_limit + 10, &weights)
            <= levenshtein_limit {
            return ArtistMatchReason::Yes(YesArtistMatchReason::OffByOne);
        }
    }
    ArtistMatchReason::No(NoArtistMatchReason::Fallthrough)
}

/// Whether an OCR line is a rendering of the artist name.
pub fn fuzzy_match_artist(line_input: &str, artist_input: &str) -> (r: bool)
    ensures
        r == artist_matches(line_input@, artist_input@),
        line_input@.len() == 0 || artist_input@.len() == 0 ==> r == false,
{
    match fuzzy_match_artist_reason(line_input, artist_input) {
        ArtistMatchReason::Yes(..) => true,
        ArtistMatchReason::No(..) => false,
    }
}

/// How a line matched a song title. A Levenshtein match carries the measured
/// distance.
#[derive(Debug)]
pub enum MatchReason {
    Contains,
    StartsWith,
    Levenshtein(u32),
}

/// `x` held below the largest `u32` value.
pub open spec fn clamp_u32(x: int) -> u32 {
    if x > u32::MAX {
        u32::MAX as u32
    } else {
        x as u32
    }
}

/// The distance bound a line must meet to count as a fuzzy title match: a
/// third of the normalized line's length, two looser when the frame is a
/// confirmed artist overlay.
pub open spec fn lev_threshold(ln_len: int, is_overlay: bool) -> int {
    ln_len / 3 + if is_overlay {
        2int
    } else {
        0int
    }
}

/// The decision taken for one line against one title, and the score of the
/// match (0 is best). The policy, tried in order with the first hit winning:
/// containment of the normalized title in the normalized line scores 0; a
/// weighted edit distance within the threshold scores the distance divided by
/// the threshold (the title first truncated to just past the line's length
/// when both are long, since the camera may never have shown the rest); a
/// normalized line that is a prefix of at least 40% of the normalized title
/// scores their length difference.
pub open spec fn line_match_spec(
    line: Seq<char>,
    title: Seq<char>,
    is_overlay: bool,
    w: Weights,
) -> Option<(MatchReason, u32)> {
    let ln = normalized(line);
    let tn = normalized(title);
    if seq_contains_sub(ln, tn) {
        Some((MatchReason::Contains, 0))
    } else {
        let tm = if ln.len() > 10 && tn.len() > 12 {
            tn.take(vstd::math::min(ln.len() as int + 2, tn.len() as int))
        } else {
            tn
        };
        let lim = lev_threshold(ln.len() as int, is_overlay);
        let cl = clamp_u32(lim + 10 + tn.len());
        let lev = lev_weight(encode_utf8(ln), encode_utf8(tm), cl, w.insertion, w.deletion, w.substitution);
        if crate::textops::lev_fits(ln, tm, w) && lim > 0 && lev <= lim {
            Some((MatchReason::Levenshtein(lev), (lev as int / lim) as u32))
        } else if ln.is_prefix_of(tn) && 10 * ln.len() >= 4 * tn.len() {
            Some((MatchReason::StartsWith, clamp_u32(tn.len() - ln.len())))
        } else {
            None
        }
    }
}

/// Matches one OCR line against one candidate title under the policy of
/// `line_match_spec`, returning the reason, the matched line, and the score.
pub fn check_line_match(line: &str, song_title: &str, is_overlay: bool, weights: &Weights) -> (r:
    Option<(MatchReason, String, u32)>)
    requires
        weights.insertion >= 1,
        weights.deletion >= 1,
    ensures
        match r {
            Some(m) => line_match_spec(line@, song_title@, is_overlay, *weights) == Some(
                (m.0, m.2),
            ) && m.1@ == line@,
            None => line_match_spec(line@, song_title@, is_overlay, *weights) is None,
        },
{
    let ln = normalize_text(line);
    let tn = normalize_text(song_title);
    if contains_sub(ln.as_str(), tn.as_str()) {
        return Some((MatchReason::Contains, line.to_owned(), 0));
    }
    let ln_len = ln.as_str().unicode_len();
    let tn_len = tn.as_str().unicode_len();
    let tm: &str = if ln_len > 10 && tn_len > 12 {
        let take = if ln_len < tn_len - 2 {
            ln_len + 2
        } else {
            tn_len
        };
        tn.as_str().substring_char(0, take)
    } else {
        tn.as_str()
    };
    let lim_wide: u128 = (ln_len as u128) / 3 + if is_overlay {
        2
    } else {
        0
    };
    let call_wide: u128 = lim_wide + 10 + (tn_len as u128);
    let call_limit: u32 = if call_wide > (u32::MAX as u128) {
        u32::MAX
    } else {
        call_wide as u32
    };
    proof {
        assert(tm@ =~= (if ln@.len() > 10 && tn@.len() > 12 {
            tn@.take(vstd::math::min(ln@.len() as int + 2, tn@.len() as int))
        } else {
            tn@
        }));
        assert(lim_wide == lev_threshold(ln@.len() as int, is_overlay));
        assert(call_limit == clamp_u32(lev_threshold(ln@.len() as int, is_overlay) + 10 + tn@.len()));
    }
    let fits = crate::textops::lev_call_fits(ln.as_str(), tm, weights);
    if fits {
        let lev = weighted_levenshtein(ln.as_str(), tm, call_limit, weights);
        if lim_wide > 0 && (lev as u128) <= lim_wide {
            let score_wide: u128 = (lev as u128) / lim_wide;
            let score: u32 = score_wide as u32;
            proof {
                assert(score_wide <= lev as u128);
                assert(score == (lev as int / lev_threshold(ln@.len() as int, is_overlay)) as u32);
            }
            return Some((MatchReason::Levenshtein(lev), line.to_owned(), score));
        }
    }
    if starts_with_str(tn.as_str(), ln.as_str()) {
        if (ln_len as u128) * 10 >= (tn_len as u128) * 4 {
            let diff: usize = tn_len - ln_len;
            let score: u32 = if diff > (u32::MAX as usize) {
                u32::MAX
            } else {
                diff as u32
            };
            return Some((MatchReason::StartsWith, line.to_owned(), score));
        }
    }
    None
}

/// The English word for a digit from one to nine, as used in classical-music
/// movement titles.
pub open spec fn spelled_number(i: int) -> Seq<char> {
    if i == 1 {
        "one"@
    } else if i == 2 {
        "two"@
    } else if i == 3 {
        "three"@
    } else if i == 4 {
        "four"@
    } else if i == 5 {
        "five"@
    } else if i == 6 {
        "six"@
    } else if i == 7 {
        "seven"@
    } else if i == 8 {
        "eight"@
    } else {
        "nine"@
    }
}

/// Spells a digit from one to nine.
pub fn spell_number(i: u8) -> (r: &'static str)
    requires
        1 <= i <= 9,
    ensures
        r@ == spelled_number(i as int),
{
    match i {
        1 => "one",
        2 => "two",
        3 => "three",
        4 => "four",
        5 => "five",
        6 => "six",
        7 => "seven",
        8 => "eight",
        _ => "nine",
    }
}

/// `s` with a single leading and a single trailing double quote removed.
pub open spec fn strip_quotes(s: Seq<char>) -> Seq<char> {
    let s1 = if s.len() > 0 && s[0] == '"' {
        s.drop_first()
    } else {
        s
    };
    if s1.len() > 0 && s1.last() == '"' {
        s1.drop_last()
    } else {
        s1
    }
}

/// The rest of a movement title after its spelled-out number, for the first
/// number word (tried in order from one) that begins `numbered`, ignoring
/// ASCII case, and is followed by a colon and a space.
pub open spec fn movement_rest_spec(numbered: Seq<char>, i: int) -> Option<Seq<char>>
    decreases 10 - i,
{
    if i < 1 || i > 9 {
        None
    } else {
        let spelled = spelled_number(i);
        if ci_prefix(numbered, spelled) && ": "@.is_prefix_of(
            numbered.skip(spelled.len() as int),
        ) {
            Some(strip_quotes(numbered.skip(spelled.len() as int + 2)))
        } else {
            movement_rest_spec(numbered, i + 1)
        }
    }
}

/// What stripping the movement prefix from a title gives: for a title of the
/// form `Movement <spelled-out-number>: <rest>`, the rest with one leading
/// and one trailing double quote removed; otherwise nothing.
pub open spec fn strip_movement_spec(title: Seq<char>) -> Option<Seq<char>> {
    if "Movement "@.is_prefix_of(title) {
        movement_rest_spec(title.skip("Movement "@.len() as int), 1)
    } else {
        None
    }
}

/// Strips a `Movement <spelled-out-number>: ` prefix from a classical-music
/// title, also removing one surrounding double quote on each side of the
/// rest. The number word is matched ignoring ASCII case.
pub fn strip_movement_prefix(song_title: &str) -> (r: Option<String>)
    ensures
        match r {
            Some(rest) => strip_movement_spec(song_title@) == Some(rest@),
            None => strip_movement_spec(song_title@) is None,
        },
{
    proof {
        reveal_strlit("Movement ");
        reveal_strlit(": ");
    }
    if !starts_with_str(song_title, "Movement ") {
        return None;
    }
    let n = song_title.unicode_len();
    let numbered = song_title.substring_char(9, n);
    proof {
        assert(numbered@ =~= song_title@.skip("Movement "@.len() as int));
    }
    let numbered_len = numbered.unicode_len();
    let mut i: u8 = 1;
    while i <= 9
        invariant
            1 <= i <= 10,
            numbered_len == numbered@.len(),
            "Movement "@.len() == 9,
            "Movement "@.is_prefix_of(song_title@),
            numbered@ == song_title@.skip(9),
            movement_rest_spec(numbered@, 1) == movement_rest_spec(numbered@, i as int),
        decreases 10 - i,
    {
        let spelled = spell_number(i);
        let spelled_len = spelled.unicode_len();
        if starts_with_ci(numbered, spelled) {
            let un_numbered = numbered.substring_char(spelled_len, numbered_len);
            proof {
                assert(un_numbered@ =~= numbered@.skip(spelled_number(i as int).len() as int));
            }
            if starts_with_str(un_numbered, ": ") {
                let un_len = un_numbered.unicode_len();
                proof {
                    reveal_strlit(": ");
                }
                let un_coloned = un_numbered.substring_char(2, un_len);
                proof {
                    assert(un_coloned@ =~= numbered@.skip(spelled_number(i as int).len() as int + 2));
                }
                let ghost base = un_coloned@;
                let rest_full = un_coloned;
                let rest1 = if rest_full.unicode_len() > 0 && rest_full.get_char(0) == '"' {
                    rest_full.substring_char(1, rest_full.unicode_len())
                } else {
                    rest_full
                };
                proof {
                    assert(rest1@ =~= (if base.len() > 0 && base[0] == '"' {
                        base.drop_first()
                    } else {
                        base
                    }));
                }
                let rest1_len = rest1.unicode_len();
                let rest2 = if rest1_len > 0 && rest1.get_char(rest1_len - 1) == '"' {
                    rest1.substring_char(0, rest1_len - 1)
                } else {
                    rest1
                };
                proof {
                    let s1 = if base.len() > 0 && base[0] == '"' {
                        base.drop_first()
                    } else {
                        base
                    };
                    assert(rest2@ =~= (if s1.len() > 0 && s1.last() == '"' {
                        s1.drop_last()
                    } else {
                        s1
                    }));
                    assert(rest2@ == strip_quotes(base));
                    assert(ci_prefix(numbered@, spelled_number(i as int)));
                    assert(": "@.is_prefix_of(numbered@.skip(spelled_number(i as int).len() as int)));
                    assert(movement_rest_spec(numbered@, i as int) == Some(
                        strip_quotes(numbered@.skip(spelled_number(i as int).len() as int + 2)),
                    ));
                    reveal_strlit("Movement ");
                    assert("Movement "@.len() == 9);
                    assert(numbered@ == song_title@.skip("Movement "@.len() as int));
                    assert(strip_movement_spec(song_title@) == movement_rest_spec(numbered@, 1));
                }
                return Some(rest2.to_owned());
            }
        }
        i = i + 1;
    }
    None
}

/// The first per-line match in `lines`, each line tried against the title and
/// then against the movement-stripped title when there is one.
pub open spec fn lines_match_spec(
    lines: Seq<Seq<char>>,
    title: Seq<char>,
    stripped: Option<Seq<char>>,
    is_overlay: bool,
    w: Weights,
) -> Option<(MatchReason, Seq<char>, u32)>
    decreases lines.len(),
{
    if lines.len() == 0 {
        None
    } else {
        let l = lines[0];
        match line_match_spec(l, title, is_overlay, w) {
            Some(m) => Some((m.0, l, m.1)),
            None => match stripped {
                Some(st) => match line_match_spec(l, st, is_overlay, w) {
                    Some(m) => Some((m.0, l, m.1)),
                    None => lines_match_spec(lines.drop_first(), title, stripped, is_overlay, w),
                },
                None => lines_match_spec(lines.drop_first(), title, stripped, is_overlay, w),
            },
        }
    }
}

/// The first match among adjacent pairs of lines joined with a space, for
/// titles that wrap across two lines, starting at pair `i`.
pub open spec fn combined_match_spec(
    lines: Seq<Seq<char>>,
    i: int,
    title: Seq<char>,
    is_overlay: bool,
    w: Weights,
) -> Option<(MatchReason, Seq<char>, u32)>
    decreases lines.len() - i,
{
    if i < 0 || i + 1 >= lines.len() {
        None
    } else {
        let combined = lines[i] + seq![' '] + lines[i + 1];
        match line_match_spec(combined, title, is_overlay, w) {
            Some(m) => Some((m.0, combined, m.1)),
            None => combined_match_spec(lines, i + 1, title, is_overlay, w),
        }
    }
}

/// The title matcher's full decision for a frame's lines: single lines first
/// (with and without the movement prefix), then adjacent pairs.
pub open spec fn song_title_match_spec(
    lines: Seq<Seq<char>>,
    title: Seq<char>,
    is_overlay: bool,
    w: Weights,
) -> Option<(MatchReason, Seq<char>, u32)> {
    match lines_match_spec(lines, title, strip_movement_spec(title), is_overlay, w) {
        Some(m) => Some(m),
        None => combined_match_spec(lines, 0, title, is_overlay, w),
    }
}

/// Matches a frame's OCR lines against one candidate title with the given
/// weights: each line alone first (also with the title's movement prefix
/// stripped), then each adjacent pair of lines joined with a space.
pub fn matches_song_title_weighted(
    lines: &Vec<String>,
    song_title: &str,
    is_overlay: bool,
    weights: &Weights,
) -> (r: Option<(MatchReason, String, u32)>)
    requires
        weights.insertion >= 1,
        weights.deletion >= 1,
    ensures
        match r {
            Some(m) => song_title_match_spec(lines.deep_view(), song_title@, is_overlay, *weights)
                == Some((m.0, m.1@, m.2)),
            None => song_title_match_spec(lines.deep_view(), song_title@, is_overlay, *weights)
                is None,
        },
{
    let ghost all = lines.deep_view();
    let ghost st_spec = strip_movement_spec(song_title@);
    let stripped = strip_movement_prefix(song_title);
    let mut i: usize = 0;
    proof {
        assert(all.skip(0) =~= all);
    }
    while i < lines.len()
        invariant
            weights.insertion >= 1,
            weights.deletion >= 1,
            all == lines.deep_view(),
            st_spec == strip_movement_spec(song_title@),
            match stripped {
                Some(ref st) => st_spec == Some(st@),
                None => st_spec is None,
            },
            0 <= i <= lines.len(),
            lines_match_spec(all, song_title@, st_spec, is_overlay, *weights)
                == lines_match_spec(all.skip(i as int), song_title@, st_spec, is_overlay, *weights),
        decreases lines.len() - i,
    {
        let line = &lines[i];
        proof {
            assert(all.skip(i as int)[0] == line@);
            assert(all.skip(i as int).drop_first() =~= all.skip(i + 1));
        }
        if let Some(m) = check_line_match(line.as_str(), song_title, is_overlay, weights) {
            return Some(m);
        }
        if let Some(st) = &stripped {
            if let Some(m) = check_line_match(line.as_str(), st.as_str(), is_overlay, weights) {
                return Some(m);
            }
        }
        i = i + 1;
    }
    proof {
        assert(all.skip(lines.len() as int) =~= Seq::<Seq<char>>::empty());
    }
    let mut j: usize = 0;
    while j < lines.len() && j + 1 < lines.len()
        invariant
            weights.insertion >= 1,
            weights.deletion >= 1,
            all == lines.deep_view(),
            st_spec == strip_movement_spec(song_title@),
            0 <= j <= lines.len(),
            lines_match_spec(all, song_title@, st_spec, is_overlay, *weights) is None,
            combined_match_spec(all, 0, song_title@, is_overlay, *weights)
                == combined_match_spec(all, j as int, song_title@, is_overlay, *weights),
        decreases lines.len() - j,
    {
        let mut combined = lines[j].clone();
        combined.append(" ");
        combined.append(lines[j + 1].as_str());
        proof {
            reveal_strlit(" ");
            assert(" "@ =~= seq![' ']);
            assert(combined@ == all[j as int] + seq![' '] + all[j + 1]);
        }
        if let Some(m) = check_line_match(combined.as_str(), song_title, is_overlay, weights) {
            return Some(m);
        }
        j = j + 1;
    }
    None
}

/// Matches a frame's OCR lines against one candidate title with the stingy
/// weight preset.
pub fn matches_song_title(lines: &Vec<String>, song_title: &str, is_overlay: bool) -> (r: Option<
    (MatchReason, String, u32),
>)
    ensures
        match r {
            Some(m) => song_title_match_spec(
                lines.deep_view(),
                song_title@,
                is_overlay,
                Weights { insertion: 2, deletion: 2, substitution: 1 },
            ) == Some((m.0, m.1@, m.2)),
            None => song_title_match_spec(
                lines.deep_view(),
                song_title@,
                is_overlay,
                Weights { insertion: 2, deletion: 2, substitution: 1 },
            ) is None,
        },
{
    let weights = weights_for_stingy_extractor();
    matches_song_title_weighted(lines, song_title, is_overlay, &weights)
}

/// An OCR parse: the non-empty trimmed lines of the engine's output, and
/// whether the first line matches the artist name (an overlay frame).
pub type OcrParse = (Vec<String>, bool);

/// The non-empty trimmed lines among `pieces`, in order.
pub open spec fn ocr_lines_of(pieces: Seq<Seq<char>>) -> Seq<Seq<char>>
    decreases pieces.len(),
{
    if pieces.len() == 0 {
        Seq::empty()
    } else {
        let t = trimmed(pieces[0]);
        let rest = ocr_lines_of(pieces.drop_first());
        if t.len() > 0 {
            seq![t] + rest
        } else {
            rest
        }
    }
}

/// What parsing raw OCR output gives: nothing when the trimmed text is
/// shorter than four bytes or yields no non-empty lines; otherwise the
/// lines and whether the first one matches the artist.
pub open spec fn parse_ocr_spec(text: Seq<char>, artist: Seq<char>) -> Option<
    (Seq<Seq<char>>, bool),
> {
    let detected = trimmed(text);
    if (encode_utf8(detected).len() as usize) < 4 {
        None
    } else {
        let lines = ocr_lines_of(split_on(detected, '\n'));
        if lines.len() == 0 {
            None
        } else {
            Some((lines, artist_matches(lines[0], artist)))
        }
    }
}

/// Parses raw OCR engine output: trims it, drops it when shorter than four
/// bytes, splits it into trimmed non-empty lines, and checks whether the
/// first line is the artist overlay.
pub fn parse_tesseract_output(text: &str, artist: &str) -> (r: Option<OcrParse>)
    ensures
        match r {
            Some(p) => parse_ocr_spec(text@, artist@) == Some((p.0.deep_view(), p.1)),
            None => parse_ocr_spec(text@, artist@) is None,
        },
{
    let detected = trim_str(text);
    if detected.len() < 4 {
        proof {
            assert(detected.spec_bytes() == encode_utf8(trimmed(text@)));
        }
        return None;
    }
    proof {
        assert(detected.spec_bytes() == encode_utf8(trimmed(text@)));
    }
    let pieces = split_on_char(detected, '\n');
    let ghost dv = pieces.deep_view();
    let mut lines: Vec<String> = Vec::new();
    let mut i: usize = 0;
    proof {
        assert(dv.skip(0) =~= dv);
        assert(lines.deep_view() + ocr_lines_of(dv) =~= ocr_lines_of(dv));
    }
    while i < pieces.len()
        invariant
            dv == pieces.deep_view(),
            0 <= i <= pieces.len(),
            ocr_lines_of(dv) == lines.deep_view() + ocr_lines_of(dv.skip(i as int)),
        decreases pieces.len() - i,
    {
        let t = trim_str(pieces[i].as_str());
        proof {
            assert(dv.skip(i as int)[0] == pieces[i as int]@);
            assert(dv.skip(i as int).drop_first() =~= dv.skip(i + 1));
        }
        if t.unicode_len() > 0 {
            let ghost prev = lines.deep_view();
            lines.push(t.to_owned());
            proof {
                assert(lines.deep_view() =~= prev + seq![trimmed(pieces[i as int]@)]);
                assert(prev + (seq![trimmed(pieces[i as int]@)] + ocr_lines_of(dv.skip(i + 1)))
                    =~= (prev + seq![trimmed(pieces[i as int]@)]) + ocr_lines_of(dv.skip(i + 1)));
            }
        }
        i = i + 1;
    }
    proof {
        assert(dv.skip(pieces.len() as int) =~= Seq::<Seq<char>>::empty());
        assert(lines.deep_view() + Seq::<Seq<char>>::empty() =~= lines.deep_view());
    }
    if lines.len() == 0 {
        proof {
            assert(ocr_lines_of(split_on(trimmed(text@), '\n')).len() == 0);
        }
        return None;
    }
    let overlay = fuzzy_match_artist(lines[0].as_str(), artist);
    proof {
        assert(lines.deep_view()[0] == lines[0]@);
    }
    Some((lines, overlay))
}

/// A line whose normal form equals a title's non-empty normal form is always
/// accepted by containment, with the best score of 0.
pub proof fn lemma_equal_normalized_is_containment(
    line: Seq<char>,
    title: Seq<char>,
    is_overlay: bool,
    w: Weights,
)
    requires
        normalized(line) == normalized(title),
        normalized(line).len() > 0,
    ensures
        line_match_spec(line, title, is_overlay, w) == Some((MatchReason::Contains, 0u32)),
{
    let ln = normalized(line);
    let tn = normalized(title);
    assert(ln.subrange(0, tn.len() as int) =~= tn);
    assert(matches_at(ln, tn, 0));
}

/// The matcher is deterministic: its decision is a function of the lines, the
/// title, the overlay flag, and the weights alone.
pub proof fn lemma_match_deterministic(
    lines: Seq<Seq<char>>,
    title: Seq<char>,
    is_overlay: bool,
    w: Weights,
    r1: Option<(MatchReason, Seq<char>, u32)>,
    r2: Option<(MatchReason, Seq<char>, u32)>,
)
    requires
        r1 == song_title_match_spec(lines, title, is_overlay, w),
        r2 == song_title_match_spec(lines, title, is_overlay, w),
    ensures
        r1 == r2,
{
}

/// A title truncated mid-word still matches: when the normalized line is a
/// prefix of the normalized title amounting to at least 40% of its length,
/// the line is accepted under every weight preset and overlay flag.
pub proof fn lemma_prefix_at_least_forty_percent_accepted(
    line: Seq<char>,
    title: Seq<char>,
    is_overlay: bool,
    w: Weights,
)
    requires
        normalized(line).is_prefix_of(normalized(title)),
        10 * normalized(line).len() >= 4 * normalized(title).len(),
    ensures
        line_match_spec(line, title, is_overlay, w) is Some,
{
}

} // verus!
