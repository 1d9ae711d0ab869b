//! The frame-index model of the media file: every frame's timestamp and
//! keyframe flag, "nearest frame" queries used to snap segment cuts onto
//! keyframes, and black-frame analysis.

use vstd::prelude::*;
use vstd::string::StrSliceExecFns;

use crate::textops::all_digits;
use crate::textops::dec_value;
use crate::textops::find_char;
use crate::textops::lemma_find_char_bounds_pub;
use crate::textops::parse_u64;
use crate::textops::split_on;
use crate::textops::split_on_char;

verus! {

/// One frame of the media file.
#[derive(Clone, Copy)]
pub struct FrameInfo {
    pub timestamp_ms: u64,
    pub is_keyframe: bool,
}

/// The ordered frame records of a media file, with the derived list of
/// keyframe positions.
pub struct VideoInfo {
    pub duration_ms: u64,
    pub framerate: u32,
    pub frames: Vec<FrameInfo>,
    pub keyframe_indices: Vec<usize>,
}

impl VideoInfo {
    /// The keyframe-index list is exactly the increasing list of positions of
    /// keyframes among the frames.
    pub open spec fn wf(self) -> bool {
        let ki = self.keyframe_indices@;
        let fr = self.frames@;
        &&& forall|i: int|
            0 <= i < ki.len() ==> (#[trigger] ki[i]) < fr.len() && fr[ki[i] as int].is_keyframe
        &&& forall|i: int, j: int| 0 <= i < j < ki.len() ==> ki[i] < ki[j]
        &&& forall|k: int|
            0 <= k < fr.len() && (#[trigger] fr[k]).is_keyframe ==> ki.contains(k as usize)
    }
}

/// The first position at or after `j` in the keyframe list whose keyframe's
/// timestamp is at or after `t`.
pub open spec fn first_kf_from(ki: Seq<usize>, fr: Seq<FrameInfo>, t: u64, j: int) -> Option<int>
    decreases ki.len() - j,
{
    if j < 0 || j >= ki.len() {
        None
    } else if fr[ki[j] as int].timestamp_ms >= t {
        Some(j)
    } else {
        first_kf_from(ki, fr, t, j + 1)
    }
}

/// The first frame position in `[lo, hi]` whose timestamp is at or after `t`.
pub open spec fn first_frame_from(fr: Seq<FrameInfo>, t: u64, lo: int, hi: int) -> Option<int>
    decreases hi - lo + 1,
{
    if lo > hi || lo < 0 || hi >= fr.len() {
        None
    } else if fr[lo].timestamp_ms >= t {
        Some(lo)
    } else {
        first_frame_from(fr, t, lo + 1, hi)
    }
}

/// What the nearest-frames query answers for time `t`: scanning the keyframe
/// list in order, the first keyframe at or after `t`; within the window that
/// begins at the preceding keyframe (or frame 0), the first frame at or after
/// `t`, and the frame just before it. Without such a keyframe, the bounding
/// pair degenerates to the last keyframe and no frame is reported.
pub open spec fn nearest_spec(v: VideoInfo, t: u64) -> ((usize, usize), Option<usize>, Option<
    usize,
>) {
    let ki = v.keyframe_indices@;
    let fr = v.frames@;
    match first_kf_from(ki, fr, t, 0) {
        None => (
            ((if ki.len() > 0 {
                ki[ki.len() - 1]
            } else {
                0
            }), 0),
            None,
            None,
        ),
        Some(j) => {
            let prev: usize = if j == 0 {
                0
            } else {
                ki[j - 1]
            };
            let kj: usize = ki[j];
            match first_frame_from(fr, t, prev as int, kj as int) {
                Some(f) => (
                    ((prev, if f == prev {
                        prev
                    } else {
                        (f - 1) as usize
                    })),
                    Some(f as usize),
                    Some(kj),
                ),
                None => ((prev, kj), None, Some(kj)),
            }
        },
    }
}

/// When no frame of `[lo, hi]` is at or after `t`, each one is before `t`.
proof fn lemma_first_frame_none(fr: Seq<FrameInfo>, t: u64, lo: int, hi: int)
    requires
        0 <= lo,
        hi < fr.len(),
        first_frame_from(fr, t, lo, hi) is None,
    ensures
        forall|m: int| lo <= m <= hi ==> (#[trigger] fr[m]).timestamp_ms < t,
    decreases hi - lo + 1,
{
    if lo <= hi {
        lemma_first_frame_none(fr, t, lo + 1, hi);
    }
}

impl VideoInfo {
    /// Answers, for a time `t`: the bounding (keyframe, frame) pair before
    /// `t`, the first frame at or after `t`, and the first keyframe at or
    /// after `t`, scanning the keyframe list in order. The forward snap is
    /// intentional: cuts must land on or after a keyframe so that stream-copy
    /// extraction stays frame-accurate.
    pub fn nearest_frames_by_time(&self, time_ms: u64) -> (r: ((usize, usize), Option<usize>,
        Option<usize>))
        requires
            self.wf(),
        ensures
            r == nearest_spec(*self, time_ms),
    {
        let ghost ki = self.keyframe_indices@;
        let ghost fr = self.frames@;
        let mut first_keyframe_num: usize = 0;
        let mut j: usize = 0;
        while j < self.keyframe_indices.len()
            invariant
                self.wf(),
                ki == self.keyframe_indices@,
                fr == self.frames@,
                0 <= j <= ki.len(),
                first_kf_from(ki, fr, time_ms, 0) == first_kf_from(ki, fr, time_ms, j as int),
                first_keyframe_num == (if j == 0 {
                    0
                } else {
                    ki[j - 1]
                }),
            decreases ki.len() - j,
        {
            let keyframe_index = self.keyframe_indices[j];
            if self.frames[keyframe_index].timestamp_ms >= time_ms {
                proof {
                    assert(first_kf_from(ki, fr, time_ms, j as int) == Some(j as int));
                }
                let mut first_frame_num: usize = first_keyframe_num;
                let mut i: usize = first_keyframe_num;
                while i <= keyframe_index
                    invariant
                        self.wf(),
                        ki == self.keyframe_indices@,
                        fr == self.frames@,
                        0 <= j < ki.len(),
                        first_kf_from(ki, fr, time_ms, 0) == Some(j as int),
                        keyframe_index == ki[j as int],
                        keyframe_index < fr.len(),
                        fr[keyframe_index as int].timestamp_ms >= time_ms,
                        first_keyframe_num == (if j == 0 {
                            0
                        } else {
                            ki[j - 1]
                        }),
                        first_keyframe_num <= i <= keyframe_index + 1,
                        first_frame_from(fr, time_ms, first_keyframe_num as int, keyframe_index as int)
                            == first_frame_from(fr, time_ms, i as int, keyframe_index as int),
                        first_frame_num == (if i == first_keyframe_num {
                            first_keyframe_num
                        } else {
                            (i - 1) as usize
                        }),
                    decreases keyframe_index - i,
                {
                    if self.frames[i].timestamp_ms >= time_ms {
                        proof {
                            assert(first_frame_from(fr, time_ms, i as int, keyframe_index as int)
                                == Some(i as int));
                        }
                        return (
                            (first_keyframe_num, first_frame_num),
                            Some(i),
                            Some(keyframe_index),
                        );
                    }
                    first_frame_num = i;
                    i = i + 1;
                }
                proof {
                    lemma_first_frame_none(
                        fr,
                        time_ms,
                        first_keyframe_num as int,
                        keyframe_index as int,
                    );
                    assert(fr[keyframe_index as int].timestamp_ms < time_ms);
                }
                return ((first_keyframe_num, first_frame_num), None, Some(keyframe_index));
            }
            first_keyframe_num = keyframe_index;
            j = j + 1;
        }
        proof {
            assert(first_kf_from(ki, fr, time_ms, ki.len() as int) is None);
        }
        ((first_keyframe_num, 0), None, None)
    }
}

/// How many of the pixel bytes are at or below the brightness threshold.
pub open spec fn dark_count(data: Seq<u8>, threshold: u8) -> int
    decreases data.len(),
{
    if data.len() == 0 {
        0
    } else {
        dark_count(data.drop_last(), threshold) + if data.last() <= threshold {
            1int
        } else {
            0int
        }
    }
}

/// Counts the pixel bytes at or below the brightness threshold.
pub fn frame_blackness(frame_data: &Vec<u8>, threshold: u8) -> (r: usize)
    ensures
        r == dark_count(frame_data@, threshold),
{
    let mut count: usize = 0;
    let mut i: usize = 0;
    proof {
        lemma_dark_count_bound(frame_data@.take(0), threshold);
    }
    while i < frame_data.len()
        invariant
            0 <= i <= frame_data.len(),
            count == dark_count(frame_data@.take(i as int), threshold),
            count <= i,
        decreases frame_data.len() - i,
    {
        proof {
            assert(frame_data@.take(i + 1).drop_last() == frame_data@.take(i as int));
            assert(frame_data@.take(i + 1).last() == frame_data@[i as int]);
        }
        if frame_data[i] <= threshold {
            count = count + 1;
        }
        i = i + 1;
    }
    proof {
        assert(frame_data@.take(frame_data.len() as int) == frame_data@);
    }
    count
}

/// A dark count never exceeds the data's length.
proof fn lemma_dark_count_bound(data: Seq<u8>, threshold: u8)
    ensures
        0 <= dark_count(data, threshold) <= data.len(),
    decreases data.len(),
{
    if data.len() > 0 {
        lemma_dark_count_bound(data.drop_last(), threshold);
    }
}

/// Whether a frame is black: more than 80% of its pixel bytes are at or below
/// the brightness threshold.
pub open spec fn black_frame(data: Seq<u8>, threshold: u8) -> bool {
    5 * dark_count(data, threshold) > 4 * data.len()
}

/// Decides whether a frame is black.
pub fn is_black_frame(frame_data: &Vec<u8>, threshold: u8) -> (r: bool)
    ensures
        r == black_frame(frame_data@, threshold),
{
    let dark = frame_blackness(frame_data, threshold);
    proof {
        lemma_dark_count_bound(frame_data@, threshold);
    }
    (dark as u128) * 5 > (frame_data.len() as u128) * 4
}

/// The media time of a frame extracted at 30 frames per second from
/// `search_start_ms` on.
pub open spec fn end_frame_time(search_start_ms: u64, frame_num: u64) -> int {
    search_start_ms + frame_num * 1000 / 30
}

/// Scans extracted end-of-file frames in time order for the first black one
/// and reports its media time: the black frame with the smallest frame
/// number wins; without one there is no result.
pub fn find_black_frame_end_time(
    frames: &Vec<(u64, Vec<u8>)>,
    search_start_ms: u64,
    threshold: u8,
) -> (r: Option<u64>)
    ensures
        match r {
            Some(t) => exists|k: int|
                0 <= k < frames.len() && black_frame((#[trigger] frames@[k]).1@, threshold) && t
                    == crate::audio::clamp_u64(end_frame_time(search_start_ms, frames@[k].0)) && (
                forall|m: int|
                    0 <= m < frames.len() && black_frame((#[trigger] frames@[m]).1@, threshold)
                        ==> frames@[m].0 >= frames@[k].0),
            None => forall|m: int|
                0 <= m < frames.len() ==> !black_frame((#[trigger] frames@[m]).1@, threshold),
        },
{
    let mut best: Option<(usize, u64)> = None;
    let mut i: usize = 0;
    while i < frames.len()
        invariant
            0 <= i <= frames.len(),
            match best {
                Some(b) => 0 <= b.0 < i && black_frame(frames@[b.0 as int].1@, threshold) && b.1
                    == frames@[b.0 as int].0 && (forall|m: int|
                    0 <= m < i && black_frame((#[trigger] frames@[m]).1@, threshold) ==> frames@[m].0
                        >= b.1),
                None => forall|m: int|
                    0 <= m < i ==> !black_frame((#[trigger] frames@[m]).1@, threshold),
            },
        decreases frames.len() - i,
    {
        if is_black_frame(&frames[i].1, threshold) {
            let num = frames[i].0;
            let take_it = match &best {
                None => true,
                Some(b) => num < b.1,
            };
            if take_it {
                best = Some((i, num));
            }
        }
        i = i + 1;
    }
    match best {
        None => None,
        Some((k, num)) => {
            let wide: u128 = (search_start_ms as u128) + (num as u128) * 1000 / 30;
            let t: u64 = if wide > (u64::MAX as u128) {
                u64::MAX
            } else {
                wide as u64
            };
            proof {
                assert(black_frame(frames@[k as int].1@, threshold));
                assert(t == crate::audio::clamp_u64(end_frame_time(search_start_ms, num)));
            }
            Some(t)
        },
    }
}

impl VideoInfo {
    /// Converts the backward scan's earliest matching frame back to media
    /// time and snaps it to the preceding keyframe, never the following one,
    /// since the boundary only moves earlier. Nothing is reported when the
    /// scan found no match at a positive frame number or the window
    /// arithmetic leaves the frame list.
    pub fn refined_boundary_time(
        &self,
        earliest_match: usize,
        frame_count: usize,
        end_frame_num: usize,
    ) -> (r: Option<u64>)
        requires
            self.wf(),
        ensures
            match r {
                Some(t) => {
                    &&& earliest_match > 0
                    &&& earliest_match <= frame_count
                    &&& frame_count - earliest_match <= end_frame_num
                    &&& end_frame_num - (frame_count - earliest_match) < self.frames@.len()
                    &&& {
                        let efn = end_frame_num - (frame_count - earliest_match);
                        let snap = nearest_spec(*self, self.frames@[efn].timestamp_ms);
                        ((snap.0).0 < self.frames@.len()) && t == self.frames@[(snap.0).0 as int].timestamp_ms
                    }
                },
                None => earliest_match == 0 || earliest_match > frame_count || frame_count
                    - earliest_match > end_frame_num || end_frame_num - (frame_count
                    - earliest_match) >= self.frames@.len() || {
                    let efn = end_frame_num - (frame_count - earliest_match);
                    let snap = nearest_spec(*self, self.frames@[efn].timestamp_ms);
                    (snap.0).0 >= self.frames@.len()
                },
            },
    {
        if earliest_match == 0 || earliest_match > frame_count {
            return None;
        }
        let subtracted = frame_count - earliest_match;
        if subtracted > end_frame_num {
            return None;
        }
        let earliest_frame_num = end_frame_num - subtracted;
        if earliest_frame_num >= self.frames.len() {
            return None;
        }
        let frame_time = self.frames[earliest_frame_num].timestamp_ms;
        let ((before_keyframe, _), _, _) = self.nearest_frames_by_time(frame_time);
        if before_keyframe >= self.frames.len() {
            return None;
        }
        Some(self.frames[before_keyframe].timestamp_ms)
    }
}

/// Whether every character of `s` is an ASCII digit (an empty `s` counts).
pub open spec fn digits_only(s: Seq<char>) -> bool {
    forall|k: int| 0 <= k < s.len() ==> crate::textops::is_digit(#[trigger] s[k])
}

/// The value in milliseconds of a fraction-of-a-second digit string, read to
/// millisecond precision.
pub open spec fn frac_ms(fp: Seq<char>) -> int {
    if fp.len() >= 3 {
        dec_value(fp.take(3))
    } else if fp.len() == 2 {
        dec_value(fp) * 10
    } else if fp.len() == 1 {
        dec_value(fp) * 100
    } else {
        0
    }
}

/// The value of a decimal-seconds string in milliseconds: an all-digit
/// integer part, optionally a dot and a digit fraction read to millisecond
/// precision; nothing when the form is different or the value does not fit.
pub open spec fn decimal_ms_spec(s: Seq<char>) -> Option<int> {
    let pieces = split_on(s, '.');
    if pieces.len() == 1 && all_digits(pieces[0]) && dec_value(pieces[0]) * 1000 <= u64::MAX {
        Some(dec_value(pieces[0]) * 1000)
    } else if pieces.len() == 2 && all_digits(pieces[0]) && digits_only(pieces[1]) && dec_value(
        pieces[0],
    ) * 1000 + frac_ms(pieces[1]) <= u64::MAX {
        Some(dec_value(pieces[0]) * 1000 + frac_ms(pieces[1]))
    } else {
        None
    }
}

/// A digit fraction read to millisecond precision is below one thousand.
proof fn lemma_frac_ms_bounds(fp: Seq<char>)
    requires
        digits_only(fp),
    ensures
        0 <= frac_ms(fp) < 1000,
{
    reveal_with_fuel(crate::textops::pow10, 4);
    if fp.len() >= 3 {
        assert(forall|k: int|
            0 <= k < fp.take(3).len() ==> crate::textops::is_digit(#[trigger] fp.take(3)[k]));
        crate::textops::lemma_dec_value_bound(fp.take(3));
    } else if fp.len() == 2 {
        crate::textops::lemma_dec_value_bound(fp);
    } else if fp.len() == 1 {
        crate::textops::lemma_dec_value_bound(fp);
    }
}

/// Reads a decimal-seconds string as milliseconds.
pub fn parse_decimal_ms(s: &str) -> (r: Option<u64>)
    ensures
        match r {
            Some(v) => decimal_ms_spec(s@) == Some(v as int),
            None => decimal_ms_spec(s@) is None,
        },
{
    let pieces = split_on_char(s, '.');
    proof {
        assert(pieces.deep_view() == split_on(s@, '.'));
        assert(pieces.deep_view().len() == pieces@.len());
    }
    if pieces.len() == 1 {
        proof {
            assert(pieces.deep_view()[0] == pieces@[0]@);
        }
        match parse_u64(pieces[0].as_str()) {
            Some(v) => {
                if v <= u64::MAX / 1000 {
                    Some(v * 1000)
                } else {
                    None
                }
            },
            None => {
                proof {
                    let p0 = pieces.deep_view()[0];
                    if all_digits(p0) {
                        crate::textops::lemma_dec_value_nonneg_pub(p0);
                        assert(dec_value(p0) > u64::MAX);
                        assert(dec_value(p0) * 1000 > u64::MAX);
                    }
                }
                None
            },
        }
    } else if pieces.len() == 2 {
        proof {
            assert(pieces.deep_view()[0] == pieces@[0]@);
            assert(pieces.deep_view()[1] == pieces@[1]@);
        }
        let ip = match parse_u64(pieces[0].as_str()) {
            Some(v) => v,
            None => {
                proof {
                    let p0 = pieces.deep_view()[0];
                    let p1 = pieces.deep_view()[1];
                    if all_digits(p0) && digits_only(p1) {
                        crate::textops::lemma_dec_value_nonneg_pub(p0);
                        lemma_frac_ms_bounds(p1);
                        assert(dec_value(p0) > u64::MAX);
                        assert(dec_value(p0) * 1000 + frac_ms(p1) > u64::MAX);
                    }
                }
                return None;
            },
        };
        let fp: &String = &pieces[1];
        let fp_len = fp.as_str().unicode_len();
        let mut k: usize = 0;
        while k < fp_len
            invariant
                fp_len == fp@.len(),
                pieces.deep_view() == split_on(s@, '.'),
                pieces.deep_view().len() == 2,
                fp@ == pieces.deep_view()[1],
                0 <= k <= fp_len,
                forall|m: int| 0 <= m < k ==> crate::textops::is_digit(#[trigger] fp@[m]),
            decreases fp_len - k,
        {
            let c = fp.as_str().get_char(k);
            let cv = c as u32;
            if cv < 48 || cv > 57 {
                proof {
                    assert(!crate::textops::is_digit(fp@[k as int]));
                    assert(!digits_only(pieces.deep_view()[1]));
                }
                return None;
            }
            k = k + 1;
        }
        let frac: u64 = if fp_len == 0 {
            0
        } else if fp_len >= 3 {
            let head = fp.as_str().substring_char(0, 3);
            proof {
                reveal_with_fuel(crate::textops::pow10, 4);
                assert(head@ =~= fp@.take(3));
                assert(all_digits(head@));
                crate::textops::lemma_dec_value_bound(head@);
            }
            match parse_u64(head) {
                Some(v) => v,
                None => {
                    proof {
                        assert(false);
                    }
                    0
                },
            }
        } else {
            proof {
                reveal_with_fuel(crate::textops::pow10, 4);
                assert(all_digits(fp@));
                crate::textops::lemma_dec_value_bound(fp@);
            }
            let v = match parse_u64(fp.as_str()) {
                Some(v) => v,
                None => {
                    proof {
                        assert(false);
                    }
                    0
                },
            };
            if fp_len == 2 {
                v * 10
            } else {
                v * 100
            }
        };
        proof {
            assert(frac == frac_ms(pieces.deep_view()[1]));
        }
        proof {
            lemma_frac_ms_bounds(pieces.deep_view()[1]);
        }
        if ip <= (u64::MAX - frac) / 1000 {
            Some(ip * 1000 + frac)
        } else {
            proof {
                assert(ip * 1000 + frac > u64::MAX);
            }
            None
        }
    } else {
        None
    }
}

/// The rounded integer frame rate of a `numerator/denominator` string, read
/// as `ffprobe` prints it; anything else, or a zero denominator, falls back
/// to 24 frames per second.
pub open spec fn fps_spec(s: Seq<char>) -> u32 {
    let pieces = split_on(s, '/');
    if pieces.len() == 2 && all_digits(pieces[0]) && all_digits(pieces[1]) && dec_value(pieces[0])
        <= u64::MAX && dec_value(pieces[1]) <= u64::MAX && dec_value(pieces[1]) > 0 {
        let n = dec_value(pieces[0]);
        let d = dec_value(pieces[1]);
        crate::ocr::clamp_u32((2 * n + d) / (2 * d))
    } else {
        24
    }
}

/// Reads a fractional frame rate and rounds it to whole frames per second.
pub fn parse_framerate(s: &str) -> (r: u32)
    ensures
        r == fps_spec(s@),
{
    let pieces = split_on_char(s, '/');
    proof {
        assert(pieces.deep_view().len() == pieces@.len());
    }
    if pieces.len() != 2 {
        return 24;
    }
    proof {
        assert(pieces.deep_view()[0] == pieces@[0]@);
        assert(pieces.deep_view()[1] == pieces@[1]@);
    }
    let n = match parse_u64(pieces[0].as_str()) {
        Some(v) => v,
        None => {
            return 24;
        },
    };
    let d = match parse_u64(pieces[1].as_str()) {
        Some(v) => v,
        None => {
            return 24;
        },
    };
    if d == 0 {
        return 24;
    }
    let rounded: u128 = (2 * (n as u128) + (d as u128)) / (2 * (d as u128));
    if rounded > (u32::MAX as u128) {
        u32::MAX
    } else {
        rounded as u32
    }
}

/// Whether a packet's flag field marks a keyframe.
pub open spec fn has_keyframe_flag(flags: Seq<char>) -> bool {
    find_char(flags, 'K') < flags.len()
}

/// The frames encoded in `ffprobe` packet lines: each line with at least two
/// comma-separated fields and a decimal timestamp contributes one record,
/// keyframe when its flags hold a `K`.
pub open spec fn packet_frames(lines: Seq<Seq<char>>) -> Seq<FrameInfo>
    decreases lines.len(),
{
    if lines.len() == 0 {
        Seq::empty()
    } else {
        let parts = split_on(lines[0], ',');
        let rest = packet_frames(lines.drop_first());
        if parts.len() >= 2 && decimal_ms_spec(parts[0]) is Some {
            seq![
                FrameInfo {
                    timestamp_ms: decimal_ms_spec(parts[0])->Some_0 as u64,
                    is_keyframe: has_keyframe_flag(parts[1]),
                },
            ] + rest
        } else {
            rest
        }
    }
}

/// A reason the probe data cannot describe a usable media file.
pub enum VideoError {
    /// The reported duration is missing or unreadable.
    BadDuration,
    /// The media timeline does not start at zero, which would skew every cut.
    NonZeroStartTime { start_ms: u64 },
}

impl VideoError {
    /// The error's diagnostic message.
    pub fn message(&self) -> (r: String)
        ensures
            match self {
                VideoError::BadDuration => r@ == "Missing or unreadable duration in video metadata"@,
                VideoError::NonZeroStartTime { start_ms } => r@ == "Start time is not 0 (found "@
                    + crate::textops::dec_digits(*start_ms as int)
                    + " ms), this may cause issues with audio splitting"@,
            },
    {
        match self {
            VideoError::BadDuration => "Missing or unreadable duration in video metadata".to_owned(),
            VideoError::NonZeroStartTime { start_ms } => {
                let mut out = String::new();
                out.append("Start time is not 0 (found ");
                let num = crate::textops::u64_to_dec(*start_ms);
                out.append(num.as_str());
                out.append(" ms), this may cause issues with audio splitting");
                out
            },
        }
    }
}

impl VideoInfo {
    /// Builds the frame-index model from the probe's reported duration, start
    /// time, frame rate, and packet lines. Fails when the duration is
    /// unreadable, or when the timeline starts after zero (an unreadable
    /// start time counts as zero, as the probe omits it for plain files).
    pub fn from_probe(duration: &str, start_time: &str, framerate: &str, packets: &str) -> (r:
        Result<VideoInfo, VideoError>)
        ensures
            match r {
                Ok(v) => {
                    &&& decimal_ms_spec(duration@) == Some(v.duration_ms as int)
                    &&& (match decimal_ms_spec(start_time@) {
                        Some(x) => x == 0,
                        None => true,
                    })
                    &&& v.framerate == fps_spec(framerate@)
                    &&& v.frames@ == packet_frames(split_on(packets@, '\n'))
                    &&& v.wf()
                },
                Err(VideoError::BadDuration) => decimal_ms_spec(duration@) is None,
                Err(VideoError::NonZeroStartTime { start_ms }) => {
                    &&& decimal_ms_spec(duration@) is Some
                    &&& decimal_ms_spec(start_time@) == Some(start_ms as int)
                    &&& start_ms != 0
                },
            },
    {
        let duration_ms = match parse_decimal_ms(duration) {
            Some(v) => v,
            None => {
                return Err(VideoError::BadDuration);
            },
        };
        let start_ms = match parse_decimal_ms(start_time) {
            Some(v) => v,
            None => 0,
        };
        if start_ms != 0 {
            return Err(VideoError::NonZeroStartTime { start_ms });
        }
        let fps = parse_framerate(framerate);
        let lines = split_on_char(packets, '\n');
        let ghost lv = lines.deep_view();
        let mut frames: Vec<FrameInfo> = Vec::new();
        let mut keyframe_indices: Vec<usize> = Vec::new();
        let mut i: usize = 0;
        proof {
            assert(lv.skip(0) =~= lv);
            assert(frames@ + packet_frames(lv) =~= packet_frames(lv));
        }
        while i < lines.len()
            invariant
                lv == lines.deep_view(),
                lv.len() == lines.len(),
                0 <= i <= lines.len(),
                packet_frames(lv) == frames@ + packet_frames(lv.skip(i as int)),
                forall|k: int|
                    0 <= k < keyframe_indices@.len() ==> (#[trigger] keyframe_indices@[k])
                        < frames@.len() && frames@[keyframe_indices@[k] as int].is_keyframe,
                forall|a: int, b: int|
                    0 <= a < b < keyframe_indices@.len() ==> keyframe_indices@[a]
                        < keyframe_indices@[b],
                forall|k: int|
                    0 <= k < frames@.len() && (#[trigger] frames@[k]).is_keyframe
                        ==> keyframe_indices@.contains(k as usize),
            decreases lines.len() - i,
        {
            proof {
                assert(lv.skip(i as int)[0] == lines@[i as int]@);
                assert(lv.skip(i as int).drop_first() =~= lv.skip(i + 1));
            }
            let parts = split_on_char(lines[i].as_str(), ',');
            proof {
                assert(parts.deep_view().len() == parts@.len());
            }
            if parts.len() >= 2 {
                proof {
                    assert(parts.deep_view()[0] == parts@[0]@);
                    assert(parts.deep_view()[1] == parts@[1]@);
                }
                if let Some(ts) = parse_decimal_ms(parts[0].as_str()) {
                    let flags = &parts[1];
                    let is_keyframe = crate::textops::find_char_at(flags.as_str(), 'K')
                        < flags.as_str().unicode_len();
                    let ghost frames_before = frames@;
                    let ghost ki_before = keyframe_indices@;
                    let idx = frames.len();
                    if is_keyframe {
                        keyframe_indices.push(idx);
                    }
                    frames.push(FrameInfo { timestamp_ms: ts, is_keyframe });
                    proof {
                        let fi = FrameInfo { timestamp_ms: ts, is_keyframe };
                        assert(frames@ =~= frames_before.push(fi));
                        assert(frames_before + (seq![fi] + packet_frames(lv.skip(i + 1))) =~= (
                        frames_before + seq![fi]) + packet_frames(lv.skip(i + 1)));
                        assert(frames_before.push(fi) =~= frames_before + seq![fi]);
                        if is_keyframe {
                            assert(keyframe_indices@ =~= ki_before.push(idx));
                            assert forall|k: int|
                                0 <= k < frames@.len() && (#[trigger] frames@[k]).is_keyframe
                                    implies keyframe_indices@.contains(k as usize) by {
                                if k < frames_before.len() {
                                    let m = choose|m: int|
                                        0 <= m < ki_before.len() && ki_before[m] == k as usize;
                                    assert(ki_before.contains(k as usize));
                                    assert(keyframe_indices@[m] == k as usize);
                                } else {
                                    assert(keyframe_indices@[ki_before.len() as int] == k as usize);
                                }
                            }
                        } else {
                            assert forall|k: int|
                                0 <= k < frames@.len() && (#[trigger] frames@[k]).is_keyframe
                                    implies keyframe_indices@.contains(k as usize) by {
                                let m = choose|m: int|
                                    0 <= m < ki_before.len() && ki_before[m] == k as usize;
                                assert(ki_before.contains(k as usize));
                                assert(keyframe_indices@[m] == k as usize);
                            }
                        }
                    }
                }
            }
            i = i + 1;
        }
        proof {
            assert(lv.skip(lines.len() as int) =~= Seq::<Seq<char>>::empty());
            assert(frames@ + Seq::<FrameInfo>::empty() =~= frames@);
        }
        Ok(VideoInfo { duration_ms, framerate: fps, frames, keyframe_indices })
    }
}

} // verus!
