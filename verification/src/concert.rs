//! The concert's metadata and catalog entries.

use vstd::prelude::*;
use vstd::string::StrSliceExecFns;

use crate::textops::find_char;
use crate::textops::lemma_find_char_bounds_pub;
use crate::textops::replace_all;
use crate::textops::replaced;
use crate::textops::split_on;

verus! {

/// One catalog entry of the setlist.
pub struct Song {
    pub title: String,
}

/// The set's metadata: artist, and optional album, date and show name.
pub struct SetMetaData {
    pub artist: String,
    pub album: Option<String>,
    pub date: Option<String>,
    pub show: Option<String>,
}

/// One computed song timestamp, in milliseconds of media time.
pub struct SongTimestamp {
    pub title: String,
    pub start_ms: u64,
    pub end_ms: u64,
    pub duration_ms: u64,
}

/// The album (or, without one, artist) name with colon forms turned into
/// dashes, fit for a directory name.
pub open spec fn folder_name_spec(m: SetMetaData) -> Seq<char> {
    let base = match m.album {
        Some(a) => a@,
        None => m.artist@,
    };
    replaced(replaced(replaced(base, " : "@, " - "@), ": "@, " - "@), ":"@, "-"@)
}

impl SetMetaData {
    /// The year of the date: everything before the first dash of an ISO-style
    /// date, or the whole date string when it has no dash.
    pub fn year(&self) -> (r: Option<String>)
        ensures
            match r {
                Some(y) => self.date is Some && y@ == split_on(self.date->Some_0@, '-')[0],
                None => self.date is None,
            },
    {
        match &self.date {
            None => None,
            Some(d) => {
                let k = crate::textops::find_char_at(d.as_str(), '-');
                proof {
                    lemma_find_char_bounds_pub(d@, '-');
                }
                let y = d.as_str().substring_char(0, k);
                proof {
                    assert(split_on(d@, '-')[0] == (if 0 <= find_char(d@, '-') < d@.len() {
                        d@.take(find_char(d@, '-'))
                    } else {
                        d@
                    }));
                    assert(y@ =~= d@.take(k as int));
                    if k == d@.len() {
                        assert(y@ =~= d@);
                    }
                }
                Some(y.to_owned())
            },
        }
    }

    /// The directory name for the set's output files.
    pub fn folder_name(&self) -> (r: String)
        ensures
            r@ == folder_name_spec(*self),
    {
        proof {
            reveal_strlit(" : ");
            reveal_strlit(": ");
            reveal_strlit(":");
        }
        let base: &String = match &self.album {
            Some(a) => a,
            None => &self.artist,
        };
        let step1 = replace_all(base.as_str(), " : ", " - ");
        let step2 = replace_all(step1.as_str(), ": ", " - ");
        replace_all(step2.as_str(), ":", "-")
    }
}

} // verus!
