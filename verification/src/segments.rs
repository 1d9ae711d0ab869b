//! Segment assembly and refinement: turning confirmed song boundaries into an
//! ordered, contiguous sequence of time-stamped segments, nudging boundaries
//! to nearby silence, and validating the result against the catalog.

use vstd::prelude::*;
use vstd::seq_lib::group_to_multiset_ensures;
use vstd::multiset::Multiset;

use crate::audio::adaptive_threshold_spec;
use crate::audio::clamp_u64;
use crate::audio::find_silence_points;
use crate::audio::frame_to_ms;
use crate::audio::is_silence_point;
use crate::audio::refinement_threshold;
use crate::audio::silence_timestamps;
use crate::concert::SetMetaData;
use crate::concert::Song;
use crate::concert::SongTimestamp;
use crate::textops::dec_digits;
use crate::textops::joined;
use crate::textops::join_strings;
use crate::textops::lower_of;
use crate::textops::lowercase;
use crate::textops::u64_to_dec;
use crate::textops::split_on;
use crate::textops::all_digits;
use crate::textops::dec_value;
use crate::ocr::MatchReason;
use crate::ocr::Weights;
use crate::ocr::song_title_match_spec;

verus! {

/// A stretch of media time, song or gap, in milliseconds.
pub struct AudioSegment {
    pub start_ms: u64,
    pub end_ms: u64,
    pub is_song: bool,
}

/// A segment attributed to one song of the catalog.
pub struct SongSegment {
    pub song: Song,
    pub segment: AudioSegment,
}

/// The catalog title that equals `t` ignoring case, or `t` itself when the
/// catalog has none.
pub open spec fn lookup_title(songs: Seq<Song>, t: Seq<char>) -> Seq<char>
    decreases songs.len(),
{
    if songs.len() == 0 {
        t
    } else if lower_of(songs[0].title@) == lower_of(t) {
        songs[0].title@
    } else {
        lookup_title(songs.drop_first(), t)
    }
}

/// Finds the catalog entry whose title equals `t` ignoring case, or keeps `t`.
fn find_song_title(songs: &Vec<Song>, t: &str) -> (r: String)
    ensures
        r@ == lookup_title(songs@, t@),
{
    let t_lower = lowercase(t);
    let mut i: usize = 0;
    proof {
        assert(songs@.skip(0) =~= songs@);
    }
    while i < songs.len()
        invariant
            0 <= i <= songs.len(),
            t_lower@ == lower_of(t@),
            lookup_title(songs@, t@) == lookup_title(songs@.skip(i as int), t@),
        decreases songs.len() - i,
    {
        proof {
            assert(songs@.skip(i as int)[0] == songs@[i as int]);
            assert(songs@.skip(i as int).drop_first() =~= songs@.skip(i + 1));
        }
        let candidate = lowercase(songs[i].title.as_str());
        if candidate == t_lower {
            return songs[i].title.clone();
        }
        i = i + 1;
    }
    proof {
        assert(songs@.skip(songs.len() as int) =~= Seq::<Song>::empty());
    }
    t.to_owned()
}

/// Orders confirmed boundaries by time, keeping equal-time boundaries in
/// their given order.
pub fn sort_boundaries(boundaries: Vec<(String, u64)>) -> (r: Vec<(String, u64)>)
    ensures
        r@.to_multiset() == boundaries@.to_multiset(),
        forall|i: int, j: int| 0 <= i < j < r.len() ==> r@[i].1 <= r@[j].1,
{
    broadcast use group_to_multiset_ensures;

    let mut rest = boundaries;
    let ghost orig = rest@;
    let mut out: Vec<(String, u64)> = Vec::new();
    proof {
        assert(out@.to_multiset().add(rest@.to_multiset()) =~= orig.to_multiset());
    }
    while rest.len() > 0
        invariant
            out@.to_multiset().add(rest@.to_multiset()) == orig.to_multiset(),
            forall|i: int, j: int| 0 <= i < j < out.len() ==> out@[i].1 <= out@[j].1,
            forall|i: int, k: int|
                0 <= i < out.len() && 0 <= k < rest.len() ==> (#[trigger] out@[i]).1
                    <= (#[trigger] rest@[k]).1,
        decreases rest.len(),
    {
        let mut min_idx: usize = 0;
        let mut k: usize = 1;
        while k < rest.len()
            invariant
                rest.len() > 0,
                0 <= min_idx < k <= rest.len(),
                forall|j: int| 0 <= j < k ==> rest@[min_idx as int].1 <= #[trigger] rest@[j].1,
            decreases rest.len() - k,
        {
            if rest[k].1 < rest[min_idx].1 {
                min_idx = k;
            }
            k = k + 1;
        }
        let ghost rest_before = rest@;
        let ghost out_before = out@;
        let item = rest.remove(min_idx);
        let ghost item_g = item;
        out.push(item);
        proof {
            broadcast use vstd::multiset::group_multiset_axioms;

            out_before.to_multiset_ensures();
            rest_before.to_multiset_ensures();
            assert(out@ == out_before.push(item_g));
            assert(out_before.push(item_g).to_multiset() =~= out_before.to_multiset().insert(
                item_g,
            ));
            assert(rest@ == rest_before.remove(min_idx as int));
            assert(rest_before.remove(min_idx as int).to_multiset() =~= rest_before.to_multiset()
                .remove(rest_before[min_idx as int]));
            assert(rest_before.contains(item_g));
            assert(rest_before.to_multiset().count(item_g) > 0);
            assert(rest_before.to_multiset() =~= rest@.to_multiset().insert(item_g));
            assert(out@.to_multiset().add(rest@.to_multiset()) =~= orig.to_multiset());
            assert(forall|j: int|
                0 <= j < rest.len() ==> #[trigger] rest@[j] == rest_before[j] || rest@[j]
                    == rest_before[j + 1]);
        }
    }
    out
}

/// Builds the ordered segment list from confirmed boundaries sorted by time:
/// segment `i` runs from its boundary (the first from 0) to the next boundary
/// (the last to the total duration), and carries the catalog entry whose
/// title matches the boundary's ignoring case.
pub fn build_segments(sorted: &Vec<(String, u64)>, songs: &Vec<Song>, total_duration_ms: u64) -> (r:
    Vec<SongSegment>)
    requires
        forall|i: int, j: int| 0 <= i < j < sorted.len() ==> sorted@[i].1 <= sorted@[j].1,
    ensures
        r.len() == sorted.len(),
        forall|i: int| 0 <= i < r.len() ==> (#[trigger] r@[i]).segment.is_song,
        r.len() > 0 ==> r@[0].segment.start_ms == 0,
        forall|i: int| 1 <= i < r.len() ==> (#[trigger] r@[i]).segment.start_ms == sorted@[i].1,
        forall|i: int|
            0 <= i < r.len() - 1 ==> (#[trigger] r@[i]).segment.end_ms == sorted@[i + 1].1,
        r.len() > 0 ==> r@[r.len() - 1].segment.end_ms == total_duration_ms,
        forall|i: int|
            0 <= i < r.len() - 1 ==> (#[trigger] r@[i]).segment.end_ms == r@[i + 1].segment.start_ms,
        forall|i: int|
            0 <= i < r.len() ==> (#[trigger] r@[i]).song.title@ == lookup_title(
                songs@,
                sorted@[i].0@,
            ),
{
    let mut out: Vec<SongSegment> = Vec::new();
    let n = sorted.len();
    let mut i: usize = 0;
    while i < n
        invariant
            n == sorted.len(),
            forall|a: int, b: int| 0 <= a < b < sorted.len() ==> sorted@[a].1 <= sorted@[b].1,
            0 <= i <= n,
            out.len() == i,
            forall|k: int| 0 <= k < i ==> (#[trigger] out@[k]).segment.is_song,
            i > 0 ==> out@[0].segment.start_ms == 0,
            forall|k: int| 1 <= k < i ==> (#[trigger] out@[k]).segment.start_ms == sorted@[k].1,
            forall|k: int|
                0 <= k < i && k < n - 1 ==> (#[trigger] out@[k]).segment.end_ms == sorted@[k + 1].1,
            i == n && n > 0 ==> out@[n - 1].segment.end_ms == total_duration_ms,
            forall|k: int|
                0 <= k < i ==> (#[trigger] out@[k]).song.title@ == lookup_title(
                    songs@,
                    sorted@[k].0@,
                ),
        decreases n - i,
    {
        let start_time: u64 = if i == 0 {
            0
        } else {
            sorted[i].1
        };
        let end_time: u64 = if i + 1 < n {
            sorted[i + 1].1
        } else {
            total_duration_ms
        };
        let title = find_song_title(songs, sorted[i].0.as_str());
        out.push(
            SongSegment {
                song: Song { title },
                segment: AudioSegment { start_ms: start_time, end_ms: end_time, is_song: true },
            },
        );
        i = i + 1;
    }
    out
}

/// Assembles segments from an arbitrary confirmed-boundary list: the
/// boundaries are ordered by time and the segments built from them. The
/// result is contiguous, starts at 0, and ends at the total duration.
pub fn segments_from_boundaries(
    boundaries: Vec<(String, u64)>,
    songs: &Vec<Song>,
    total_duration_ms: u64,
) -> (r: Vec<SongSegment>)
    ensures
        r.len() == boundaries.len(),
        forall|i: int| 0 <= i < r.len() ==> (#[trigger] r@[i]).segment.is_song,
        r.len() > 0 ==> r@[0].segment.start_ms == 0,
        r.len() > 0 ==> r@[r.len() - 1].segment.end_ms == total_duration_ms,
        forall|i: int|
            0 <= i < r.len() - 1 ==> (#[trigger] r@[i]).segment.end_ms == r@[i + 1].segment.start_ms,
        exists|sorted: Seq<(String, u64)>|
            {
                &&& (#[trigger] sorted.to_multiset()) == boundaries@.to_multiset()
                &&& sorted.len() == boundaries@.len()
                &&& (forall|i: int, j: int| 0 <= i < j < sorted.len() ==> sorted[i].1 <= sorted[j].1)
                &&& (forall|i: int|
                    1 <= i < r.len() ==> (#[trigger] r@[i]).segment.start_ms == sorted[i].1)
                &&& (forall|i: int|
                    0 <= i < r.len() - 1 ==> (#[trigger] r@[i]).segment.end_ms == sorted[i + 1].1)
                &&& (forall|i: int|
                    0 <= i < r.len() ==> (#[trigger] r@[i]).song.title@ == lookup_title(
                        songs@,
                        sorted[i].0@,
                    ))
            },
{
    broadcast use group_to_multiset_ensures;

    let ghost orig = boundaries@;
    let sorted = sort_boundaries(boundaries);
    proof {
        assert(sorted@.len() == sorted@.to_multiset().len());
        assert(orig.len() == orig.to_multiset().len());
    }
    let r = build_segments(&sorted, songs, total_duration_ms);
    proof {
        let ghost w = sorted@;
        assert(w.to_multiset() == orig.to_multiset());
    }
    r
}

/// How far before a detected start the audio pass looks for silence, in
/// milliseconds.
pub const LOOK_BACK_MS: u64 = 3000;

/// The earliest time of the look-back window before `start`.
pub open spec fn window_low(start: u64) -> int {
    if start >= LOOK_BACK_MS {
        start - LOOK_BACK_MS
    } else {
        0
    }
}

/// Whether a silence timestamp falls in the look-back window before `start`.
pub open spec fn in_window(ts: u64, start: u64) -> bool {
    window_low(start) <= ts < start
}

/// Whether any silence timestamp falls in the look-back window.
pub open spec fn has_nearby_silence(sil: Seq<u64>, start: u64) -> bool {
    exists|k: int| 0 <= k < sil.len() && in_window(#[trigger] sil[k], start)
}

/// Whether the audio pass moves segment `i`'s start: it is a non-first song
/// segment with silence in its look-back window.
pub open spec fn nudged(segs: Seq<SongSegment>, sil: Seq<u64>, i: int) -> bool {
    0 < i < segs.len() && segs[i].segment.is_song && has_nearby_silence(
        sil,
        segs[i].segment.start_ms,
    )
}

/// The latest silence timestamp within the look-back window before
/// `song_start`, if any.
fn latest_silence_in_window(silence_ms: &Vec<u64>, song_start: u64) -> (r: Option<u64>)
    ensures
        match r {
            Some(ts) => silence_ms@.contains(ts) && in_window(ts, song_start) && (forall|k: int|
                0 <= k < silence_ms.len() && in_window(#[trigger] silence_ms@[k], song_start)
                    ==> silence_ms@[k] <= ts),
            None => !has_nearby_silence(silence_ms@, song_start),
        },
{
    let search_start: u64 = if song_start >= LOOK_BACK_MS {
        song_start - LOOK_BACK_MS
    } else {
        0
    };
    let mut best: u64 = 0;
    let mut found = false;
    let mut k: usize = 0;
    while k < silence_ms.len()
        invariant
            search_start == window_low(song_start),
            0 <= k <= silence_ms.len(),
            found <==> (exists|j: int|
                0 <= j < k && in_window(#[trigger] silence_ms@[j], song_start)),
            found ==> silence_ms@.contains(best) && in_window(best, song_start),
            forall|j: int|
                0 <= j < k && in_window(#[trigger] silence_ms@[j], song_start) ==> silence_ms@[j]
                    <= best,
        decreases silence_ms.len() - k,
    {
        let ts = silence_ms[k];
        if ts >= search_start && ts < song_start && (!found || ts > best) {
            best = ts;
            found = true;
            proof {
                assert(in_window(silence_ms@[k as int], song_start));
            }
        }
        k = k + 1;
    }
    if found {
        Some(best)
    } else {
        None
    }
}

/// How the audio pass relates a refined segment list to its input, for a
/// given list of silence timestamps: every non-first song segment with
/// silence in its look-back window starts at the latest such timestamp (the
/// move is owed, not optional), every other segment keeps its start; a song's
/// end follows a nudged successor's start, the last end becomes the total
/// duration, and every other end, and all titles and song flags, are kept.
pub open spec fn silence_refined(
    old_segs: Seq<SongSegment>,
    sil: Seq<u64>,
    total_duration_ms: u64,
    new_segs: Seq<SongSegment>,
) -> bool {
    &&& new_segs.len() == old_segs.len()
    &&& forall|i: int|
        0 <= i < new_segs.len() ==> (#[trigger] new_segs[i]).song.title@
            == old_segs[i].song.title@ && new_segs[i].segment.is_song
            == old_segs[i].segment.is_song
    &&& forall|i: int|
        0 <= i < new_segs.len() && nudged(old_segs, sil, i) ==> sil.contains(
            (#[trigger] new_segs[i]).segment.start_ms,
        ) && in_window(new_segs[i].segment.start_ms, old_segs[i].segment.start_ms) && (forall|
            k: int,
        |
            0 <= k < sil.len() && in_window(#[trigger] sil[k], old_segs[i].segment.start_ms)
                ==> sil[k] <= new_segs[i].segment.start_ms)
    &&& forall|i: int|
        0 <= i < new_segs.len() && !nudged(old_segs, sil, i) ==> (
        #[trigger] new_segs[i]).segment.start_ms == old_segs[i].segment.start_ms
    &&& forall|i: int|
        0 <= i < new_segs.len() - 1 ==> (#[trigger] new_segs[i]).segment.end_ms == (if nudged(
            old_segs,
            sil,
            i + 1,
        ) && old_segs[i].segment.is_song {
            new_segs[i + 1].segment.start_ms
        } else {
            old_segs[i].segment.end_ms
        })
    &&& new_segs.len() > 0 ==> new_segs[new_segs.len() - 1].segment.end_ms == total_duration_ms
}

/// Moves each non-first song segment's start to the latest silence timestamp
/// within its look-back window, when there is one; the previous segment's end
/// follows when it is a song, and the last segment's end is set to the total
/// duration. Everything else is kept unchanged.
pub fn refine_segments_with_silence(
    segments: &Vec<SongSegment>,
    silence_ms: &Vec<u64>,
    total_duration_ms: u64,
) -> (r: Vec<SongSegment>)
    ensures
        silence_refined(segments@, silence_ms@, total_duration_ms, r@),
{
    let n = segments.len();
    let mut new_starts: Vec<u64> = Vec::new();
    let mut nudge_flags: Vec<bool> = Vec::new();
    let mut i: usize = 0;
    while i < n
        invariant
            n == segments.len(),
            0 <= i <= n,
            new_starts.len() == i,
            nudge_flags.len() == i,
            forall|k: int|
                0 <= k < i ==> #[trigger] nudge_flags@[k] == nudged(segments@, silence_ms@, k),
            forall|k: int|
                0 <= k < i && nudged(segments@, silence_ms@, k) ==> silence_ms@.contains(
                    #[trigger] new_starts@[k],
                ) && in_window(new_starts@[k], segments@[k].segment.start_ms) && (forall|m: int|
                    0 <= m < silence_ms.len() && in_window(
                        #[trigger] silence_ms@[m],
                        segments@[k].segment.start_ms,
                    ) ==> silence_ms@[m] <= new_starts@[k]),
            forall|k: int|
                0 <= k < i && !nudged(segments@, silence_ms@, k) ==> #[trigger] new_starts@[k]
                    == segments@[k].segment.start_ms,
        decreases n - i,
    {
        if i == 0 || !segments[i].segment.is_song {
            new_starts.push(segments[i].segment.start_ms);
            nudge_flags.push(false);
        } else {
            match latest_silence_in_window(silence_ms, segments[i].segment.start_ms) {
                Some(ts) => {
                    new_starts.push(ts);
                    nudge_flags.push(true);
                },
                None => {
                    new_starts.push(segments[i].segment.start_ms);
                    nudge_flags.push(false);
                },
            }
        }
        i = i + 1;
    }
    let mut out: Vec<SongSegment> = Vec::new();
    let mut j: usize = 0;
    while j < n
        invariant
            n == segments.len(),
            new_starts.len() == n,
            nudge_flags.len() == n,
            forall|k: int|
                0 <= k < n ==> #[trigger] nudge_flags@[k] == nudged(segments@, silence_ms@, k),
            forall|k: int|
                0 <= k < n && nudged(segments@, silence_ms@, k) ==> silence_ms@.contains(
                    #[trigger] new_starts@[k],
                ) && in_window(new_starts@[k], segments@[k].segment.start_ms) && (forall|m: int|
                    0 <= m < silence_ms.len() && in_window(
                        #[trigger] silence_ms@[m],
                        segments@[k].segment.start_ms,
                    ) ==> silence_ms@[m] <= new_starts@[k]),
            forall|k: int|
                0 <= k < n && !nudged(segments@, silence_ms@, k) ==> #[trigger] new_starts@[k]
                    == segments@[k].segment.start_ms,
            0 <= j <= n,
            out.len() == j,
            forall|k: int|
                0 <= k < j ==> (#[trigger] out@[k]).song.title@ == segments@[k].song.title@
                    && out@[k].segment.is_song == segments@[k].segment.is_song,
            forall|k: int| 0 <= k < j ==> (#[trigger] out@[k]).segment.start_ms == new_starts@[k],
            forall|k: int|
                0 <= k < j ==> (#[trigger] out@[k]).segment.end_ms == (if k < n - 1 && nudged(
                    segments@,
                    silence_ms@,
                    k + 1,
                ) && segments@[k].segment.is_song {
                    new_starts@[k + 1]
                } else if k == n - 1 {
                    total_duration_ms
                } else {
                    segments@[k].segment.end_ms
                }),
        decreases n - j,
    {
        let start_ms = new_starts[j];
        let end_ms: u64 = if j == n - 1 {
            total_duration_ms
        } else if nudge_flags[j + 1] && segments[j].segment.is_song {
            new_starts[j + 1]
        } else {
            segments[j].segment.end_ms
        };
        out.push(
            SongSegment {
                song: Song { title: segments[j].song.title.clone() },
                segment: AudioSegment { start_ms, end_ms, is_song: segments[j].segment.is_song },
            },
        );
        j = j + 1;
    }
    out
}

/// Refines song boundaries from the acoustic energy profile: computes the
/// adaptive threshold, finds the silence spans, converts their midpoints to
/// media time, and applies the silence refinement — so every non-first song
/// start with a silence midpoint in its look-back window moves to the latest
/// such midpoint, the preceding song's end follows it, everything else keeps
/// its value, and the last segment's end becomes the total duration.
pub fn refine_segments_with_audio_analysis(
    segments: &Vec<SongSegment>,
    energy_profile: &Vec<u64>,
    total_duration_ms: u64,
) -> (r: Vec<SongSegment>)
    ensures
        r.len() == segments.len(),
        forall|i: int|
            0 <= i < r.len() ==> (#[trigger] r@[i]).song.title@ == segments@[i].song.title@
                && r@[i].segment.is_song == segments@[i].segment.is_song,
        r.len() > 0 ==> r@[r.len() - 1].segment.end_ms == total_duration_ms,
        exists|sil: Seq<u64>|
            #[trigger] crate::audio::is_silence_ms_list(
                energy_profile@,
                adaptive_threshold_spec(energy_profile@),
                sil,
            ) && silence_refined(segments@, sil, total_duration_ms, r@),
{
    let threshold = refinement_threshold(energy_profile);
    let points = find_silence_points(energy_profile, threshold);
    let sil = silence_timestamps(&points);
    let r = refine_segments_with_silence(segments, &sil, total_duration_ms);
    proof {
        assert(crate::audio::is_silence_point_list(energy_profile@, threshold, points@));
        assert(crate::audio::is_silence_ms_list(energy_profile@, threshold, sil@));
        assert(silence_refined(segments@, sil@, total_duration_ms, r@));
    }
    r
}

/// Whether all song segments of a list end no earlier than they start.
pub open spec fn segments_well_formed(segs: Seq<SongSegment>) -> bool {
    forall|i: int|
        0 <= i < segs.len() ==> (#[trigger] segs[i]).segment.start_ms <= segs[i].segment.end_ms
}

/// The fallback name given to a song segment beyond the catalog.
pub open spec fn fallback_title(counter: int) -> Seq<char> {
    "song_"@ + dec_digits(counter + 1)
}

/// The timestamp rows for the song segments of a list, in order: the `j`-th
/// song segment is named after the `j`-th catalog entry (or a fallback name
/// beyond the catalog) and carries its start, end, and duration.
pub open spec fn timestamps_spec(segs: Seq<SongSegment>, titles: Seq<Seq<char>>, counter: int) -> Seq<
    (Seq<char>, u64, u64, u64),
>
    decreases segs.len(),
{
    if segs.len() == 0 {
        Seq::empty()
    } else if !segs[0].segment.is_song {
        timestamps_spec(segs.drop_first(), titles, counter)
    } else {
        let title = if counter < titles.len() {
            titles[counter]
        } else {
            fallback_title(counter)
        };
        seq![
            (
                title,
                segs[0].segment.start_ms,
                segs[0].segment.end_ms,
                (segs[0].segment.end_ms - segs[0].segment.start_ms) as u64,
            ),
        ] + timestamps_spec(segs.drop_first(), titles, counter + 1)
    }
}

/// The titles of a catalog, in order.
pub open spec fn titles_of(songs: Seq<Song>) -> Seq<Seq<char>> {
    Seq::new(songs.len(), |i: int| songs[i].title@)
}

/// The view of one timestamp row.
pub open spec fn timestamp_view(t: SongTimestamp) -> (Seq<char>, u64, u64, u64) {
    (t.title@, t.start_ms, t.end_ms, t.duration_ms)
}

/// Produces the final (title, start, end, duration) rows: one per song
/// segment, in order, named by catalog position.
pub fn create_song_timestamps(segments: &Vec<SongSegment>, song_list: &Vec<Song>) -> (r: Vec<
    SongTimestamp,
>)
    requires
        segments_well_formed(segments@),
    ensures
        r@.map_values(|t: SongTimestamp| timestamp_view(t)) == timestamps_spec(
            segments@,
            titles_of(song_list@),
            0,
        ),
{
    let ghost titles = titles_of(song_list@);
    let mut out: Vec<SongTimestamp> = Vec::new();
    let mut counter: usize = 0;
    let mut i: usize = 0;
    proof {
        assert(segments@.skip(0) =~= segments@);
        assert(out@.map_values(|t: SongTimestamp| timestamp_view(t)) + timestamps_spec(
            segments@,
            titles,
            0,
        ) =~= timestamps_spec(segments@, titles, 0));
    }
    while i < segments.len()
        invariant
            segments_well_formed(segments@),
            titles == titles_of(song_list@),
            song_list@.len() == titles.len(),
            0 <= i <= segments.len(),
            counter <= i,
            timestamps_spec(segments@, titles, 0) == out@.map_values(
                |t: SongTimestamp| timestamp_view(t),
            ) + timestamps_spec(segments@.skip(i as int), titles, counter as int),
        decreases segments.len() - i,
    {
        proof {
            assert(segments@.skip(i as int)[0] == segments@[i as int]);
            assert(segments@.skip(i as int).drop_first() =~= segments@.skip(i + 1));
        }
        if segments[i].segment.is_song {
            let title: String = if counter < song_list.len() {
                proof {
                    assert(titles[counter as int] == song_list@[counter as int].title@);
                }
                song_list[counter].title.clone()
            } else {
                let mut t = String::new();
                t.append("song_");
                let num = u64_to_dec((counter as u64) + 1);
                t.append(num.as_str());
                proof {
                    assert(t@ == fallback_title(counter as int));
                }
                t
            };
            let ghost prev = out@;
            let row = SongTimestamp {
                title,
                start_ms: segments[i].segment.start_ms,
                end_ms: segments[i].segment.end_ms,
                duration_ms: segments[i].segment.end_ms - segments[i].segment.start_ms,
            };
            let ghost row_g = row;
            out.push(row);
            proof {
                let f = |t: SongTimestamp| timestamp_view(t);
                assert(out@.map_values(f) =~= prev.map_values(f).push(timestamp_view(row_g)));
                assert(prev.map_values(f) + (seq![timestamp_view(row_g)] + timestamps_spec(
                    segments@.skip(i + 1),
                    titles,
                    counter as int + 1,
                )) =~= (prev.map_values(f) + seq![timestamp_view(row_g)]) + timestamps_spec(
                    segments@.skip(i + 1),
                    titles,
                    counter as int + 1,
                ));
                assert(prev.map_values(f).push(timestamp_view(row_g)) =~= prev.map_values(f)
                    + seq![timestamp_view(row_g)]);
            }
            counter = counter + 1;
        }
        i = i + 1;
    }
    proof {
        assert(segments@.skip(segments.len() as int) =~= Seq::<SongSegment>::empty());
        assert(out@.map_values(|t: SongTimestamp| timestamp_view(t)) + Seq::<
            (Seq<char>, u64, u64, u64),
        >::empty() =~= out@.map_values(|t: SongTimestamp| timestamp_view(t)));
    }
    out
}

/// A fatal failure of detection or assembly.
pub enum SplitError {
    /// Text overlay detection did not find every catalog title; the payload
    /// names the missing ones.
    MissingSongs(Vec<String>),
    /// More segments were detected than the catalog has songs.
    TooManySegments { segments: u64, songs: u64 },
}

impl SplitError {
    /// The error's diagnostic message.
    pub fn message(&self) -> (r: String)
        ensures
            match self {
                SplitError::MissingSongs(m) => r@ == "Text overlay detection didn't find all songs. Missing: "@
                    + joined(m.deep_view(), ", "@),
                SplitError::TooManySegments { segments, songs } => r@ == "Too many segments detected. "@
                    + dec_digits(*segments as int) + " segments but only "@ + dec_digits(
                    *songs as int,
                ) + " songs provided."@,
            },
    {
        match self {
            SplitError::MissingSongs(missing) => {
                let mut out = String::new();
                out.append("Text overlay detection didn't find all songs. Missing: ");
                let list = join_strings(missing, ", ");
                out.append(list.as_str());
                out
            },
            SplitError::TooManySegments { segments, songs } => {
                let mut out = String::new();
                out.append("Too many segments detected. ");
                let n1 = u64_to_dec(*segments);
                out.append(n1.as_str());
                out.append(" segments but only ");
                let n2 = u64_to_dec(*songs);
                out.append(n2.as_str());
                out.append(" songs provided.");
                out
            },
        }
    }
}

/// The titles of the song segments of a list, in order.
pub open spec fn found_titles(segs: Seq<SongSegment>) -> Seq<Seq<char>>
    decreases segs.len(),
{
    if segs.len() == 0 {
        Seq::empty()
    } else if segs[0].segment.is_song {
        seq![segs[0].song.title@] + found_titles(segs.drop_first())
    } else {
        found_titles(segs.drop_first())
    }
}

/// Whether any of `founds` equals `t` ignoring case.
pub open spec fn any_title_matches(founds: Seq<Seq<char>>, t: Seq<char>) -> bool {
    exists|k: int| 0 <= k < founds.len() && lower_of(#[trigger] founds[k]) == lower_of(t)
}

/// The catalog titles that no found title matches ignoring case, in catalog
/// order.
pub open spec fn missing_titles_spec(titles: Seq<Seq<char>>, founds: Seq<Seq<char>>) -> Seq<
    Seq<char>,
>
    decreases titles.len(),
{
    if titles.len() == 0 {
        Seq::empty()
    } else if !any_title_matches(founds, titles[0]) {
        seq![titles[0]] + missing_titles_spec(titles.drop_first(), founds)
    } else {
        missing_titles_spec(titles.drop_first(), founds)
    }
}

/// Collects the titles of the song segments.
fn collect_found_titles(segments: &Vec<SongSegment>) -> (r: Vec<String>)
    ensures
        r.deep_view() == found_titles(segments@),
{
    let mut out: Vec<String> = Vec::new();
    let mut i: usize = 0;
    proof {
        assert(segments@.skip(0) =~= segments@);
        assert(out.deep_view() + found_titles(segments@) =~= found_titles(segments@));
    }
    while i < segments.len()
        invariant
            0 <= i <= segments.len(),
            found_titles(segments@) == out.deep_view() + found_titles(segments@.skip(i as int)),
        decreases segments.len() - i,
    {
        proof {
            assert(segments@.skip(i as int)[0] == segments@[i as int]);
            assert(segments@.skip(i as int).drop_first() =~= segments@.skip(i + 1));
        }
        if segments[i].segment.is_song {
            let ghost prev = out.deep_view();
            out.push(segments[i].song.title.clone());
            proof {
                assert(out.deep_view() =~= prev + seq![segments@[i as int].song.title@]);
                assert(prev + (seq![segments@[i as int].song.title@] + found_titles(
                    segments@.skip(i + 1),
                )) =~= (prev + seq![segments@[i as int].song.title@]) + found_titles(
                    segments@.skip(i + 1),
                ));
            }
        }
        i = i + 1;
    }
    proof {
        assert(segments@.skip(segments.len() as int) =~= Seq::<SongSegment>::empty());
        assert(out.deep_view() + Seq::<Seq<char>>::empty() =~= out.deep_view());
    }
    out
}

/// Whether any found title equals `t` ignoring case.
fn any_found_matches(founds: &Vec<String>, t: &str) -> (r: bool)
    ensures
        r == any_title_matches(founds.deep_view(), t@),
{
    let t_lower = lowercase(t);
    let mut k: usize = 0;
    while k < founds.len()
        invariant
            t_lower@ == lower_of(t@),
            0 <= k <= founds.len(),
            forall|j: int|
                0 <= j < k ==> lower_of(#[trigger] founds.deep_view()[j]) != lower_of(t@),
        decreases founds.len() - k,
    {
        let f_lower = lowercase(founds[k].as_str());
        if f_lower == t_lower {
            proof {
                assert(lower_of(founds.deep_view()[k as int]) == lower_of(t@));
            }
            return true;
        }
        k = k + 1;
    }
    false
}

/// The catalog titles that text detection never confirmed, compared ignoring
/// case, in catalog order.
pub fn missing_songs(segments: &Vec<SongSegment>, set_list: &Vec<Song>) -> (r: Vec<String>)
    ensures
        r.deep_view() == missing_titles_spec(titles_of(set_list@), found_titles(segments@)),
{
    let founds = collect_found_titles(segments);
    let ghost titles = titles_of(set_list@);
    let ghost fnds = found_titles(segments@);
    let mut out: Vec<String> = Vec::new();
    let mut i: usize = 0;
    proof {
        assert(titles.skip(0) =~= titles);
        assert(out.deep_view() + missing_titles_spec(titles, fnds) =~= missing_titles_spec(
            titles,
            fnds,
        ));
    }
    while i < set_list.len()
        invariant
            titles == titles_of(set_list@),
            fnds == founds.deep_view(),
            fnds == found_titles(segments@),
            titles.len() == set_list.len(),
            0 <= i <= set_list.len(),
            missing_titles_spec(titles, fnds) == out.deep_view() + missing_titles_spec(
                titles.skip(i as int),
                fnds,
            ),
        decreases set_list.len() - i,
    {
        proof {
            assert(titles.skip(i as int)[0] == titles[i as int]);
            assert(titles.skip(i as int).drop_first() =~= titles.skip(i + 1));
        }
        if !any_found_matches(&founds, set_list[i].title.as_str()) {
            let ghost prev = out.deep_view();
            out.push(set_list[i].title.clone());
            proof {
                assert(out.deep_view() =~= prev + seq![titles[i as int]]);
                assert(prev + (seq![titles[i as int]] + missing_titles_spec(
                    titles.skip(i + 1),
                    fnds,
                )) =~= (prev + seq![titles[i as int]]) + missing_titles_spec(
                    titles.skip(i + 1),
                    fnds,
                ));
            }
        }
        i = i + 1;
    }
    proof {
        assert(titles.skip(set_list.len() as int) =~= Seq::<Seq<char>>::empty());
        assert(out.deep_view() + Seq::<Seq<char>>::empty() =~= out.deep_view());
    }
    out
}

/// The number of song segments in a list.
pub open spec fn song_count(segs: Seq<SongSegment>) -> int {
    found_titles(segs).len() as int
}

/// Counts the song segments.
fn count_songs(segments: &Vec<SongSegment>) -> (r: usize)
    ensures
        r == song_count(segments@),
{
    let mut count: usize = 0;
    let mut i: usize = 0;
    proof {
        assert(segments@.skip(0) =~= segments@);
        lemma_found_titles_len(segments@);
    }
    while i < segments.len()
        invariant
            0 <= i <= segments.len(),
            count == song_count(segments@) - found_titles(segments@.skip(i as int)).len(),
            count <= i,
        decreases segments.len() - i,
    {
        proof {
            assert(segments@.skip(i as int)[0] == segments@[i as int]);
            assert(segments@.skip(i as int).drop_first() =~= segments@.skip(i + 1));
        }
        if segments[i].segment.is_song {
            count = count + 1;
        }
        i = i + 1;
    }
    proof {
        assert(segments@.skip(segments.len() as int) =~= Seq::<SongSegment>::empty());
    }
    count
}

/// A list's found titles are no more numerous than its segments.
proof fn lemma_found_titles_len(segs: Seq<SongSegment>)
    ensures
        0 <= found_titles(segs).len() <= segs.len(),
    decreases segs.len(),
{
    if segs.len() > 0 {
        lemma_found_titles_len(segs.drop_first());
    }
}

/// Checks that text detection confirmed every catalog title: fails, naming
/// the missing titles, exactly when there are fewer song segments than
/// catalog entries.
pub fn check_all_songs_found(segments: &Vec<SongSegment>, set_list: &Vec<Song>) -> (r: Result<
    (),
    SplitError,
>)
    ensures
        r is Ok <==> song_count(segments@) >= set_list.len(),
        r matches Err(e) ==> e matches SplitError::MissingSongs(m) && m.deep_view()
            == missing_titles_spec(titles_of(set_list@), found_titles(segments@)),
{
    let found = count_songs(segments);
    if found < set_list.len() {
        Err(SplitError::MissingSongs(missing_songs(segments, set_list)))
    } else {
        Ok(())
    }
}

/// One planned extraction: a song segment with its catalog title, the safe
/// filename stem for it, and its track number.
pub struct ExtractionPlanEntry {
    pub title: String,
    pub safe_title: String,
    pub track: u64,
    pub start_ms: u64,
    pub end_ms: u64,
}

/// The view of one plan entry.
pub open spec fn plan_view(e: ExtractionPlanEntry) -> (Seq<char>, Seq<char>, u64, u64, u64) {
    (e.title@, e.safe_title@, e.track, e.start_ms, e.end_ms)
}

/// The extraction rows for the song segments of a list, in order: the `j`-th
/// song segment is named after the `j`-th catalog entry (or a fallback name),
/// gets a sanitized filename stem and the track number `j + 1`.
pub open spec fn plan_spec(segs: Seq<SongSegment>, titles: Seq<Seq<char>>, counter: int) -> Seq<
    (Seq<char>, Seq<char>, u64, u64, u64),
>
    decreases segs.len(),
{
    if segs.len() == 0 {
        Seq::empty()
    } else if !segs[0].segment.is_song {
        plan_spec(segs.drop_first(), titles, counter)
    } else {
        let title = if counter < titles.len() {
            titles[counter]
        } else {
            fallback_title(counter)
        };
        seq![
            (
                title,
                crate::textops::sanitized_filename(title),
                (counter + 1) as u64,
                segs[0].segment.start_ms,
                segs[0].segment.end_ms,
            ),
        ] + plan_spec(segs.drop_first(), titles, counter + 1)
    }
}

/// Plans the extraction of every song segment, in order. Fails exactly when
/// more segments were detected than the catalog has songs, since the mapping
/// from segments to titles would be ambiguous.
pub fn plan_segments(segments: &Vec<SongSegment>, songs: &Vec<Song>) -> (r: Result<
    Vec<ExtractionPlanEntry>,
    SplitError,
>)
    ensures
        r is Ok <==> segments.len() <= songs.len(),
        r matches Ok(plan) ==> plan@.map_values(|e: ExtractionPlanEntry| plan_view(e))
            == plan_spec(segments@, titles_of(songs@), 0),
        r matches Err(e) ==> e == (SplitError::TooManySegments {
            segments: segments.len() as u64,
            songs: songs.len() as u64,
        }),
{
    if segments.len() > songs.len() {
        return Err(
            SplitError::TooManySegments {
                segments: segments.len() as u64,
                songs: songs.len() as u64,
            },
        );
    }
    let ghost titles = titles_of(songs@);
    let mut out: Vec<ExtractionPlanEntry> = Vec::new();
    let mut counter: usize = 0;
    let mut i: usize = 0;
    proof {
        assert(segments@.skip(0) =~= segments@);
        assert(out@.map_values(|e: ExtractionPlanEntry| plan_view(e)) + plan_spec(
            segments@,
            titles,
            0,
        ) =~= plan_spec(segments@, titles, 0));
    }
    while i < segments.len()
        invariant
            titles == titles_of(songs@),
            songs@.len() == titles.len(),
            0 <= i <= segments.len(),
            counter <= i,
            plan_spec(segments@, titles, 0) == out@.map_values(
                |e: ExtractionPlanEntry| plan_view(e),
            ) + plan_spec(segments@.skip(i as int), titles, counter as int),
        decreases segments.len() - i,
    {
        proof {
            assert(segments@.skip(i as int)[0] == segments@[i as int]);
            assert(segments@.skip(i as int).drop_first() =~= segments@.skip(i + 1));
        }
        if segments[i].segment.is_song {
            let title: String = if counter < songs.len() {
                proof {
                    assert(titles[counter as int] == songs@[counter as int].title@);
                }
                songs[counter].title.clone()
            } else {
                let mut t = String::new();
                t.append("song_");
                let num = u64_to_dec((counter as u64) + 1);
                t.append(num.as_str());
                proof {
                    assert(t@ == fallback_title(counter as int));
                }
                t
            };
            let safe_title = crate::textops::sanitize_filename(title.as_str());
            let ghost prev = out@;
            let entry = ExtractionPlanEntry {
                title,
                safe_title,
                track: (counter as u64) + 1,
                start_ms: segments[i].segment.start_ms,
                end_ms: segments[i].segment.end_ms,
            };
            let ghost entry_g = entry;
            out.push(entry);
            proof {
                let f = |e: ExtractionPlanEntry| plan_view(e);
                assert(out@.map_values(f) =~= prev.map_values(f).push(plan_view(entry_g)));
                assert(prev.map_values(f) + (seq![plan_view(entry_g)] + plan_spec(
                    segments@.skip(i + 1),
                    titles,
                    counter as int + 1,
                )) =~= (prev.map_values(f) + seq![plan_view(entry_g)]) + plan_spec(
                    segments@.skip(i + 1),
                    titles,
                    counter as int + 1,
                ));
                assert(prev.map_values(f).push(plan_view(entry_g)) =~= prev.map_values(f) + seq![
                    plan_view(entry_g),
                ]);
            }
            counter = counter + 1;
        }
        i = i + 1;
    }
    proof {
        assert(segments@.skip(segments.len() as int) =~= Seq::<SongSegment>::empty());
        assert(out@.map_values(|e: ExtractionPlanEntry| plan_view(e)) + Seq::<
            (Seq<char>, Seq<char>, u64, u64, u64),
        >::empty() =~= out@.map_values(|e: ExtractionPlanEntry| plan_view(e)));
    }
    Ok(out)
}

/// What the coarse text pass does with the next frame: stop once every title
/// is matched, skip frames within thirty seconds of the last confirmed
/// boundary (songs are assumed longer), or analyze the frame.
pub enum FrameAction {
    Stop,
    Skip,
    Analyze,
}

/// The action for a frame of the coarse pass, given how many titles are
/// already matched and when the last confirmed song started.
pub open spec fn text_pass_action_spec(
    matched_count: int,
    num_songs: int,
    last_start_ms: Option<u64>,
    frame_num: int,
) -> FrameAction {
    if matched_count > 0 && matched_count == num_songs {
        FrameAction::Stop
    } else if matched_count > 0 && last_start_ms is Some && frame_num * 1000 < last_start_ms->0
        + 30000 {
        FrameAction::Skip
    } else {
        FrameAction::Analyze
    }
}

/// Decides what the coarse text pass does with the frame at second
/// `frame_num`.
pub fn text_pass_action(
    matched_count: usize,
    num_songs: usize,
    last_start_ms: Option<u64>,
    frame_num: usize,
) -> (r: FrameAction)
    ensures
        r == text_pass_action_spec(
            matched_count as int,
            num_songs as int,
            last_start_ms,
            frame_num as int,
        ),
{
    if matched_count > 0 && matched_count == num_songs {
        return FrameAction::Stop;
    }
    if matched_count > 0 {
        if let Some(last) = last_start_ms {
            let frame_ms: u128 = (frame_num as u128) * 1000;
            if frame_ms < (last as u128) + 30000 {
                return FrameAction::Skip;
            }
        }
    }
    FrameAction::Analyze
}

/// Whether the matched-boundary list already holds a title.
pub open spec fn contains_boundary_title(matched: Seq<(Seq<char>, u64)>, t: Seq<char>) -> bool {
    exists|k: int| 0 <= k < matched.len() && (#[trigger] matched[k]).0 == t
}

/// The candidate titles not yet matched, in order.
pub open spec fn remaining_spec(titles: Seq<Seq<char>>, matched: Seq<(Seq<char>, u64)>) -> Seq<
    Seq<char>,
>
    decreases titles.len(),
{
    if titles.len() == 0 {
        Seq::empty()
    } else if !contains_boundary_title(matched, titles[0]) {
        seq![titles[0]] + remaining_spec(titles.drop_first(), matched)
    } else {
        remaining_spec(titles.drop_first(), matched)
    }
}

/// The candidate titles that no confirmed boundary claims yet, in order.
pub fn remaining_titles(titles: &Vec<String>, matched: &Vec<(String, u64)>) -> (r: Vec<String>)
    ensures
        r.deep_view() == remaining_spec(titles.deep_view(), matched.deep_view()),
{
    let ghost tv = titles.deep_view();
    let ghost mv = matched.deep_view();
    let mut out: Vec<String> = Vec::new();
    let mut i: usize = 0;
    proof {
        assert(tv.skip(0) =~= tv);
        assert(out.deep_view() + remaining_spec(tv, mv) =~= remaining_spec(tv, mv));
    }
    while i < titles.len()
        invariant
            tv == titles.deep_view(),
            mv == matched.deep_view(),
            tv.len() == titles.len(),
            mv.len() == matched.len(),
            0 <= i <= titles.len(),
            remaining_spec(tv, mv) == out.deep_view() + remaining_spec(tv.skip(i as int), mv),
        decreases titles.len() - i,
    {
        proof {
            assert(tv.skip(i as int)[0] == tv[i as int]);
            assert(tv.skip(i as int).drop_first() =~= tv.skip(i + 1));
        }
        let mut already = false;
        let mut k: usize = 0;
        while k < matched.len()
            invariant
                mv == matched.deep_view(),
                mv.len() == matched.len(),
                tv == titles.deep_view(),
                tv.len() == titles.len(),
                0 <= i < titles.len(),
                0 <= k <= matched.len(),
                already <==> (exists|j: int| 0 <= j < k && (#[trigger] mv[j]).0 == tv[i as int]),
            decreases matched.len() - k,
        {
            if matched[k].0 == titles[i] {
                proof {
                    assert((mv[k as int]).0 == tv[i as int]);
                }
                already = true;
            }
            k = k + 1;
        }
        if !already {
            let ghost prev = out.deep_view();
            out.push(titles[i].clone());
            proof {
                assert(out.deep_view() =~= prev + seq![tv[i as int]]);
                assert(prev + (seq![tv[i as int]] + remaining_spec(tv.skip(i + 1), mv)) =~= (prev
                    + seq![tv[i as int]]) + remaining_spec(tv.skip(i + 1), mv));
            }
        }
        i = i + 1;
    }
    proof {
        assert(tv.skip(titles.len() as int) =~= Seq::<Seq<char>>::empty());
        assert(out.deep_view() + Seq::<Seq<char>>::empty() =~= out.deep_view());
    }
    out
}

/// Lowercases every catalog title and orders them by length, longest first,
/// so longer titles are tried before short ones that may be their substrings.
pub fn sort_songs_for_matching(songs: &Vec<Song>) -> (r: Vec<String>)
    ensures
        r.deep_view().to_multiset() == Seq::new(
            songs@.len(),
            |i: int| lower_of(songs@[i].title@),
        ).to_multiset(),
        forall|i: int, j: int|
            0 <= i < j < r.len() ==> (#[trigger] r.deep_view()[i]).len()
                >= (#[trigger] r.deep_view()[j]).len(),
{
    broadcast use group_to_multiset_ensures;

    let ghost lowered = Seq::new(songs@.len(), |i: int| lower_of(songs@[i].title@));
    let mut pool: Vec<String> = Vec::new();
    let mut i: usize = 0;
    while i < songs.len()
        invariant
            lowered == Seq::new(songs@.len(), |k: int| lower_of(songs@[k].title@)),
            0 <= i <= songs.len(),
            pool.deep_view() == lowered.take(i as int),
        decreases songs.len() - i,
    {
        let ghost prev = pool.deep_view();
        pool.push(lowercase(songs[i].title.as_str()));
        proof {
            assert(pool.deep_view() =~= prev.push(lower_of(songs@[i as int].title@)));
            assert(pool.deep_view() =~= lowered.take(i + 1));
        }
        i = i + 1;
    }
    proof {
        assert(lowered.take(songs.len() as int) =~= lowered);
    }
    let mut rest = pool;
    let ghost all = rest.deep_view();
    let mut out: Vec<String> = Vec::new();
    proof {
        assert(out.deep_view().to_multiset().add(rest.deep_view().to_multiset())
            =~= all.to_multiset());
    }
    while rest.len() > 0
        invariant
            out.deep_view().to_multiset().add(rest.deep_view().to_multiset())
                == all.to_multiset(),
            forall|a: int, b: int|
                0 <= a < b < out.len() ==> (#[trigger] out.deep_view()[a]).len()
                    >= (#[trigger] out.deep_view()[b]).len(),
            forall|a: int, k: int|
                0 <= a < out.len() && 0 <= k < rest.len() ==> (#[trigger] out.deep_view()[a]).len()
                    >= (#[trigger] rest.deep_view()[k]).len(),
        decreases rest.len(),
    {
        let mut max_idx: usize = 0;
        let mut max_len: usize = rest[0].as_str().unicode_len();
        let mut k: usize = 1;
        while k < rest.len()
            invariant
                rest.len() > 0,
                0 <= max_idx < k <= rest.len(),
                max_len == (rest.deep_view()[max_idx as int]).len(),
                forall|j: int|
                    0 <= j < k ==> (rest.deep_view()[max_idx as int]).len()
                        >= (#[trigger] rest.deep_view()[j]).len(),
            decreases rest.len() - k,
        {
            let l = rest[k].as_str().unicode_len();
            if l > max_len {
                max_idx = k;
                max_len = l;
            }
            k = k + 1;
        }
        let ghost rest_before = rest.deep_view();
        let ghost out_before = out.deep_view();
        let item = rest.remove(max_idx);
        let ghost item_g = item@;
        out.push(item);
        proof {
            broadcast use vstd::multiset::group_multiset_axioms;

            out_before.to_multiset_ensures();
            rest_before.to_multiset_ensures();
            assert(out.deep_view() =~= out_before.push(item_g));
            assert(out_before.push(item_g).to_multiset() =~= out_before.to_multiset().insert(
                item_g,
            ));
            assert(rest.deep_view() =~= rest_before.remove(max_idx as int));
            assert(rest_before.remove(max_idx as int).to_multiset() =~= rest_before.to_multiset()
                .remove(rest_before[max_idx as int]));
            assert(rest_before.contains(item_g));
            assert(rest_before.to_multiset().count(item_g) > 0);
            assert(rest_before.to_multiset() =~= rest.deep_view().to_multiset().insert(item_g));
            assert(out.deep_view().to_multiset().add(rest.deep_view().to_multiset())
                =~= all.to_multiset());
            assert(forall|j: int|
                0 <= j < rest.len() ==> #[trigger] rest.deep_view()[j] == rest_before[j]
                    || rest.deep_view()[j] == rest_before[j + 1]);
        }
    }
    out
}

/// The score of a match outcome, or -1 for none.
pub open spec fn match_score(m: Option<(MatchReason, Seq<char>, u32)>) -> int {
    match m {
        Some(t) => t.2 as int,
        None => -1,
    }
}

/// The matcher's outcome for candidate `k` under the stingy preset.
pub open spec fn candidate_match(
    lines: Seq<Seq<char>>,
    titles: Seq<Seq<char>>,
    is_overlay: bool,
    k: int,
) -> Option<(MatchReason, Seq<char>, u32)> {
    song_title_match_spec(
        lines,
        titles[k],
        is_overlay,
        Weights { insertion: 2, deletion: 2, substitution: 1 },
    )
}

/// Matches a frame's lines against every remaining candidate title and picks
/// the best match: the lowest score, and among equal scores the candidate
/// listed first.
pub fn match_song_titles(lines: &Vec<String>, is_overlay: bool, titles: &Vec<String>) -> (r: Option<
    (usize, MatchReason, String, u32),
>)
    ensures
        match r {
            Some(m) => {
                let (k, reason, line, score) = m;
                &&& 0 <= k < titles.len()
                &&& candidate_match(lines.deep_view(), titles.deep_view(), is_overlay, k as int)
                    == Some((reason, line@, score))
                &&& forall|j: int|
                    0 <= j < titles.len() && candidate_match(
                        lines.deep_view(),
                        titles.deep_view(),
                        is_overlay,
                        j,
                    ) is Some ==> match_score(
                        candidate_match(lines.deep_view(), titles.deep_view(), is_overlay, j),
                    ) >= score
                &&& forall|j: int|
                    0 <= j < k && candidate_match(
                        lines.deep_view(),
                        titles.deep_view(),
                        is_overlay,
                        j,
                    ) is Some ==> match_score(
                        candidate_match(lines.deep_view(), titles.deep_view(), is_overlay, j),
                    ) > score
            },
            None => forall|j: int|
                0 <= j < titles.len() ==> candidate_match(
                    lines.deep_view(),
                    titles.deep_view(),
                    is_overlay,
                    j,
                ) is None,
        },
{
    let ghost lv = lines.deep_view();
    let ghost tv = titles.deep_view();
    let mut best: Option<(usize, MatchReason, String, u32)> = None;
    let mut i: usize = 0;
    while i < titles.len()
        invariant
            lv == lines.deep_view(),
            tv == titles.deep_view(),
            tv.len() == titles.len(),
            0 <= i <= titles.len(),
            match best {
                Some(ref m) => {
                    &&& 0 <= m.0 < i
                    &&& candidate_match(lv, tv, is_overlay, m.0 as int) == Some(
                        (m.1, m.2@, m.3),
                    )
                    &&& forall|j: int|
                        0 <= j < i && candidate_match(lv, tv, is_overlay, j) is Some
                            ==> match_score(candidate_match(lv, tv, is_overlay, j)) >= m.3
                    &&& forall|j: int|
                        0 <= j < m.0 && candidate_match(lv, tv, is_overlay, j) is Some
                            ==> match_score(candidate_match(lv, tv, is_overlay, j)) > m.3
                },
                None => forall|j: int|
                    0 <= j < i ==> candidate_match(lv, tv, is_overlay, j) is None,
            },
        decreases titles.len() - i,
    {
        proof {
            assert(tv[i as int] == titles@[i as int]@);
        }
        if let Some(m) = crate::ocr::matches_song_title(lines, titles[i].as_str(), is_overlay) {
            let (reason, line, score) = m;
            let take_it = match &best {
                None => true,
                Some(b) => score < b.3,
            };
            if take_it {
                best = Some((i, reason, line, score));
            }
        }
        i = i + 1;
    }
    best
}

/// The backward frame scan's state: still searching for a first matching
/// frame, or having found one, tracking the earliest matching frame number.
pub enum ScanState {
    Searching,
    Found { earliest: usize },
}

/// One step of the backward scan: a match before the earliest known one
/// advances it; once a frame no longer matches after a match was found, the
/// scan stops, since the overlay does not reappear going backward.
pub open spec fn scan_step_spec(state: ScanState, frame_num: int, matched: bool) -> (
    ScanState,
    bool,
) {
    match state {
        ScanState::Searching => {
            if matched {
                (ScanState::Found { earliest: frame_num as usize }, false)
            } else {
                (ScanState::Searching, false)
            }
        },
        ScanState::Found { earliest } => {
            if matched && frame_num < earliest {
                (ScanState::Found { earliest: frame_num as usize }, false)
            } else {
                (ScanState::Found { earliest }, true)
            }
        },
    }
}

/// Advances the backward scan by one frame, returning the new state and
/// whether the scan is over.
pub fn scan_step(state: ScanState, frame_num: usize, matched: bool) -> (r: (ScanState, bool))
    ensures
        r == scan_step_spec(state, frame_num as int, matched),
{
    match state {
        ScanState::Searching => {
            if matched {
                (ScanState::Found { earliest: frame_num }, false)
            } else {
                (ScanState::Searching, false)
            }
        },
        ScanState::Found { earliest } => {
            if matched && frame_num < earliest {
                (ScanState::Found { earliest: frame_num }, false)
            } else {
                (ScanState::Found { earliest }, true)
            }
        },
    }
}

/// The scan never stops before its first match.
pub proof fn lemma_scan_stops_only_after_found(state: ScanState, frame_num: int, matched: bool)
    ensures
        scan_step_spec(state, frame_num, matched).1 ==> state is Found,
{
}

/// Picks the boundary time for a song: the refined time when the backward
/// scan produced one earlier than the coarse frame, else the coarse frame's
/// time.
pub fn choose_refined_timestamp(refined_ms: u64, frame_num: usize) -> (r: u64)
    ensures
        r == (if 0 < refined_ms < clamp_u64(frame_num as int * 1000) {
            refined_ms
        } else {
            clamp_u64(frame_num as int * 1000)
        }),
{
    let frame_wide: u128 = (frame_num as u128) * 1000;
    let frame_ms: u64 = if frame_wide > (u64::MAX as u128) {
        u64::MAX
    } else {
        frame_wide as u64
    };
    if refined_ms > 0 && refined_ms < frame_ms {
        refined_ms
    } else {
        frame_ms
    }
}

/// The frame number encoded in an extracted image's filename: the digits
/// before the image extension, or 0 when the name has another form or the
/// number overflows.
pub open spec fn frame_number_spec(s: Seq<char>) -> int {
    if ".png"@.is_suffix_of(s) {
        let stem = s.take(s.len() - 4);
        if all_digits(stem) && dec_value(stem) <= usize::MAX {
            dec_value(stem)
        } else {
            0
        }
    } else {
        0
    }
}

/// Reads the frame number from an extracted image's filename.
pub fn frame_number_from_image_filename(frame_name: &str) -> (r: usize)
    ensures
        r == frame_number_spec(frame_name@),
{
    proof {
        reveal_strlit(".png");
    }
    let n: usize = frame_name.unicode_len();
    if n < 4 {
        proof {
            assert(!".png"@.is_suffix_of(frame_name@));
        }
        return 0;
    }
    let ext = frame_name.substring_char(n - 4, n);
    if !crate::textops::starts_with_str(ext, ".png") {
        proof {
            assert(ext@ =~= frame_name@.skip(n - 4));
            assert(".png"@.is_suffix_of(frame_name@) ==> ".png"@.is_prefix_of(ext@)) by {
                if ".png"@.is_suffix_of(frame_name@) {
                    assert(frame_name@.skip(n - 4) =~= ".png"@);
                }
            }
        }
        return 0;
    }
    proof {
        assert(ext@ =~= frame_name@.skip(n - 4));
        assert(ext@.len() == 4);
        assert(ext@ =~= ".png"@);
        assert(".png"@.is_suffix_of(frame_name@));
    }
    let stem = frame_name.substring_char(0, n - 4);
    proof {
        assert(stem@ =~= frame_name@.take(n - 4));
    }
    match crate::textops::parse_u64(stem) {
        Some(v) => {
            if v <= (usize::MAX as u64) {
                v as usize
            } else {
                0
            }
        },
        None => 0,
    }
}

/// The metadata fields handed to the extraction sink: artist always, then
/// title, album, year (when the date yields a non-empty one), and track
/// number, each when present.
pub open spec fn metadata_fields_spec(
    title: Option<Seq<char>>,
    meta: SetMetaData,
    track: Option<u64>,
) -> Seq<(Seq<char>, Seq<char>)> {
    let base = seq![("artist"@, meta.artist@)];
    let with_title = match title {
        Some(t) => base.push(("title"@, t)),
        None => base,
    };
    let with_album = match meta.album {
        Some(a) => with_title.push(("album"@, a@)),
        None => with_title,
    };
    let with_year = match meta.date {
        Some(d) => if split_on(d@, '-')[0].len() > 0 {
            with_album.push(("date"@, split_on(d@, '-')[0]))
        } else {
            with_album
        },
        None => with_album,
    };
    match track {
        Some(t) => with_year.push(("track"@, dec_digits(t as int))),
        None => with_year,
    }
}

/// Builds the metadata fields for one extracted song.
pub fn metadata_fields(song_title: Option<&String>, meta: &SetMetaData, track_number: Option<u64>)
    -> (r: Vec<(String, String)>)
    ensures
        r.deep_view() == metadata_fields_spec(
            match song_title {
                Some(t) => Some(t@),
                None => None,
            },
            *meta,
            track_number,
        ),
{
    let mut out: Vec<(String, String)> = Vec::new();
    out.push(("artist".to_owned(), meta.artist.clone()));
    proof {
        assert(out.deep_view() =~= seq![("artist"@, meta.artist@)]);
    }
    if let Some(t) = song_title {
        let ghost prev = out.deep_view();
        out.push(("title".to_owned(), (*t).clone()));
        proof {
            assert(out.deep_view() =~= prev.push(("title"@, t@)));
        }
    }
    if let Some(a) = &meta.album {
        let ghost prev = out.deep_view();
        out.push(("album".to_owned(), a.clone()));
        proof {
            assert(out.deep_view() =~= prev.push(("album"@, a@)));
        }
    }
    if let Some(y) = meta.year() {
        if !y.as_str().is_empty() {
            let ghost prev = out.deep_view();
            out.push(("date".to_owned(), y));
            proof {
                assert(out.deep_view() =~= prev.push(("date"@, split_on(meta.date->Some_0@, '-')[0])));
            }
        }
    }
    if let Some(t) = track_number {
        let ghost prev = out.deep_view();
        let num = u64_to_dec(t);
        out.push(("track".to_owned(), num));
        proof {
            assert(out.deep_view() =~= prev.push(("track"@, dec_digits(t as int))));
        }
    }
    out
}

/// The position of the last song segment, if any.
pub open spec fn last_song_index(segs: Seq<SongSegment>) -> Option<int>
    decreases segs.len(),
{
    if segs.len() == 0 {
        None
    } else if segs.last().segment.is_song {
        Some(segs.len() - 1)
    } else {
        last_song_index(segs.drop_last())
    }
}

/// Moves the last song's end to the black frame's time, when one was found;
/// every other field stays. Finding no black frame is not an error: the end
/// stays at the total duration.
pub fn refine_last_song_end_time(segments: &Vec<SongSegment>, black_frame_time_ms: Option<u64>) -> (r:
    Vec<SongSegment>)
    ensures
        r.len() == segments.len(),
        forall|i: int|
            0 <= i < r.len() && !(black_frame_time_ms is Some && last_song_index(segments@) == Some(
                i,
            )) ==> #[trigger] r@[i] == segments@[i],
        match (black_frame_time_ms, last_song_index(segments@)) {
            (Some(t), Some(i)) => r@[i] == (SongSegment {
                song: Song { title: segments@[i].song.title },
                segment: AudioSegment {
                    start_ms: segments@[i].segment.start_ms,
                    end_ms: t,
                    is_song: segments@[i].segment.is_song,
                },
            }),
            _ => true,
        },
{
    let ghost orig = segments@;
    let n = segments.len();
    let mut last_idx: Option<usize> = None;
    let mut k: usize = n;
    proof {
        assert(orig.take(n as int) =~= orig);
    }
    while k > 0 && last_idx.is_none()
        invariant
            orig == segments@,
            n == segments.len(),
            0 <= k <= n,
            match last_idx {
                Some(j) => last_song_index(orig) == Some(j as int) && j < n,
                None => last_song_index(orig) == last_song_index(orig.take(k as int)),
            },
        decreases k,
    {
        proof {
            assert(orig.take(k as int).last() == orig[k - 1]);
            assert(orig.take(k as int).drop_last() =~= orig.take(k - 1));
        }
        if segments[k - 1].segment.is_song {
            last_idx = Some(k - 1);
        }
        k = k - 1;
    }
    proof {
        if last_idx is None {
            assert(orig.take(0) =~= Seq::<SongSegment>::empty());
            assert(last_song_index(orig) is None);
        }
    }
    let mut out: Vec<SongSegment> = Vec::new();
    let mut i: usize = 0;
    while i < n
        invariant
            orig == segments@,
            n == segments.len(),
            0 <= i <= n,
            out.len() == i,
            match last_idx {
                Some(j) => last_song_index(orig) == Some(j as int) && j < n,
                None => last_song_index(orig) is None,
            },
            forall|m: int|
                0 <= m < i && !(black_frame_time_ms is Some && last_song_index(orig) == Some(m))
                    ==> #[trigger] out@[m] == orig[m],
            match (black_frame_time_ms, last_song_index(orig)) {
                (Some(t), Some(j)) => j < i ==> out@[j] == (SongSegment {
                    song: Song { title: orig[j].song.title },
                    segment: AudioSegment {
                        start_ms: orig[j].segment.start_ms,
                        end_ms: t,
                        is_song: orig[j].segment.is_song,
                    },
                }),
                _ => true,
            },
        decreases n - i,
    {
        let is_last_song = match &last_idx {
            Some(j) => *j == i,
            None => false,
        };
        let end_ms: u64 = if black_frame_time_ms.is_some() && is_last_song {
            black_frame_time_ms.unwrap()
        } else {
            segments[i].segment.end_ms
        };
        out.push(
            SongSegment {
                song: Song { title: segments[i].song.title.clone() },
                segment: AudioSegment {
                    start_ms: segments[i].segment.start_ms,
                    end_ms,
                    is_song: segments[i].segment.is_song,
                },
            },
        );
        i = i + 1;
    }
    out
}

} // verus!
