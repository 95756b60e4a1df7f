//! Item identity: a track's name and the two root directories its files live
//! under, plus the parser for the runtime a duration probe reports.

use vstd::prelude::*;

use chrono::Timelike;

use crate::scan::{path_join, spec_char_index, spec_trim, trim_chars};
use crate::text::{chars_to_string, str_chars};

verus! {

/// A track's identity: its name, the root directory its sources are looked
/// up under, and the root directory its derived artifacts live under.
#[derive(Clone, Debug)]
pub struct TrackName {
    pub name: String,
    pub source_root: String,
    pub dest_root: String,
}

pub struct TrackNameV {
    pub name: Seq<char>,
    pub source_root: Seq<char>,
    pub dest_root: Seq<char>,
}

impl View for TrackName {
    type V = TrackNameV;

    open spec fn view(&self) -> TrackNameV {
        TrackNameV { name: self.name@, source_root: self.source_root@, dest_root: self.dest_root@ }
    }
}

impl TrackName {
    /// A track identity under the given source and artifact roots.
    pub fn new(name: String, source_root: String, dest_root: String) -> (r: TrackName)
        ensures
            r@.name == name@,
            r@.source_root == source_root@,
            r@.dest_root == dest_root@,
    {
        TrackName { name, source_root, dest_root }
    }

    /// The track's name.
    pub fn get_name(&self) -> (r: String)
        ensures
            r@ == self@.name,
    {
        self.name.clone()
    }

    /// The directory the track's sources and configuration live in.
    pub fn source_dir(&self) -> (r: String)
        ensures
            r@ == self@.source_root + "/"@ + self@.name,
    {
        path_join(self.source_root.as_str(), self.name.as_str())
    }

    /// The directory the track's derived artifacts live in.
    pub fn dest_dir(&self) -> (r: String)
        ensures
            r@ == self@.dest_root + "/"@ + self@.name,
    {
        path_join(self.dest_root.as_str(), self.name.as_str())
    }

    /// The working directory the build command runs in.
    pub fn build_dir(&self) -> (r: String)
        ensures
            r@ == self@.dest_root + "/"@ + self@.name + "/"@ + "build"@,
    {
        let d = self.dest_dir();
        path_join(d.as_str(), "build")
    }

    /// The path of a file inside the track's artifact directory.
    pub fn artifact_path(&self, file: &str) -> (r: String)
        ensures
            r@ == self@.dest_root + "/"@ + self@.name + "/"@ + file@,
    {
        let d = self.dest_dir();
        path_join(d.as_str(), file)
    }

    /// The path of the track's configuration file.
    pub fn config_file(&self) -> (r: String)
        ensures
            r@ == self@.source_root + "/"@ + self@.name + "/"@ + "config.toml"@,
    {
        let d = self.source_dir();
        path_join(d.as_str(), "config.toml")
    }
}

// ---------------------------------------------------------------------------
// Runtime parsing
// ---------------------------------------------------------------------------

/// What chrono parses out of a clock-time string in the format
/// `%T.%9f` (hours:minutes:seconds, a dot, and exactly nine fraction
/// digits): seconds from midnight and the nanosecond part.  The result
/// depends on the characters alone.
pub uninterp spec fn clock_time_of(s: Seq<char>) -> Option<(u32, u32)>;

/// Relies on chrono's `NaiveTime::parse_from_str` with the fixed format
/// `%T.%9f`, and on `Timelike::num_seconds_from_midnight` /
/// `Timelike::nanosecond` to read the parsed time; the result is a function
/// of the input string alone.  chrono documents seconds from midnight below
/// 86400 and the nanosecond part below 2,000,000,000 (the excess marking a
/// leap second).
#[verifier::external_body]
fn parse_clock_time(s: &str) -> (r: Option<(u32, u32)>)
    ensures
        r == clock_time_of(s@),
        r matches Option::Some(t) ==> t.0 < 86400 && t.1 < 2000000000,
{
    chrono::NaiveTime::parse_from_str(s, "%T.%9f").ok().map(
        |t| (t.num_seconds_from_midnight(), t.nanosecond()),
    )
}

/// A duration text brought to the fixed-width form the clock parser expects:
/// everything up to the first dot, then the dot and the fraction digits,
/// truncated or padded with zeros so that exactly ten characters follow the
/// whole part.
pub open spec fn spec_normalize_duration(s: Seq<char>) -> Seq<char> {
    let i = spec_char_index(s, '.');
    let tail = s.skip(i);
    let raw = if tail.len() >= 10 {
        tail.take(10)
    } else {
        tail
    };
    s.take(i) + raw + Seq::new((10 - raw.len()) as nat, |j: int| '0')
}

/// Brings a duration text to the fixed-width form the clock parser expects.
pub fn normalize_duration(s: &Vec<char>) -> (r: Vec<char>)
    ensures
        r@ == spec_normalize_duration(s@),
{
    let n = s.len();
    let dot = crate::scan::find_char(s, '.');
    let mut out: Vec<char> = Vec::new();
    let mut i: usize = 0;
    proof {
        assert(s@.take(0) =~= Seq::<char>::empty());
    }
    while i < dot
        invariant
            i <= dot,
            dot <= n,
            n == s@.len(),
            out@ == s@.take(i as int),
        decreases dot - i,
    {
        out.push(s[i]);
        proof {
            assert(s@.take(i + 1 as int) =~= s@.take(i as int).push(s@[i as int]));
        }
        i += 1;
    }
    let avail = n - dot;
    let frac_len = if avail >= 10 {
        10
    } else {
        avail
    };
    let ghost whole = s@.take(dot as int);
    let ghost tail = s@.skip(dot as int);
    let ghost raw = if tail.len() >= 10 {
        tail.take(10)
    } else {
        tail
    };
    let mut j: usize = 0;
    while j < frac_len
        invariant
            j <= frac_len,
            frac_len <= avail,
            avail == n - dot,
            dot <= n,
            n == s@.len(),
            frac_len as int == raw.len(),
            raw == (if tail.len() >= 10 {
                tail.take(10)
            } else {
                tail
            }),
            tail == s@.skip(dot as int),
            out@ == whole + raw.take(j as int),
        decreases frac_len - j,
    {
        out.push(s[dot + j]);
        proof {
            assert(raw[j as int] == tail[j as int]);
            assert(tail[j as int] == s@[dot + j]);
            assert(raw.take(j + 1 as int) =~= raw.take(j as int).push(raw[j as int]));
            assert(whole + raw.take(j + 1 as int) =~= (whole + raw.take(j as int)).push(
                s@[dot + j],
            ));
        }
        j += 1;
    }
    proof {
        assert(raw.take(raw.len() as int) =~= raw);
    }
    let mut k: usize = frac_len;
    while k < 10
        invariant
            frac_len <= k <= 10,
            frac_len as int == raw.len(),
            out@ == whole + raw + Seq::new((k - frac_len) as nat, |j2: int| '0'),
        decreases 10 - k,
    {
        out.push('0');
        proof {
            assert(whole + raw + Seq::new((k + 1 - frac_len) as nat, |j2: int| '0') =~= (whole
                + raw + Seq::new((k - frac_len) as nat, |j2: int| '0')).push('0'));
        }
        k += 1;
    }
    proof {
        assert(Seq::new(0nat, |j2: int| '0') =~= Seq::<char>::empty());
        assert(whole + raw + Seq::new(0nat, |j2: int| '0') =~= whole + raw);
        assert(out@ =~= spec_normalize_duration(s@));
    }
    out
}

/// Parses the duration a probe printed: the text is trimmed, its fraction is
/// brought to the fixed nine-digit form, and the result is what the clock
/// parser makes of it.
pub fn parse_runtime(s: &str) -> (r: Option<(u32, u32)>)
    ensures
        r == clock_time_of(spec_normalize_duration(spec_trim(s@))),
        r matches Option::Some(t) ==> t.0 < 86400 && t.1 < 2000000000,
{
    let cs = str_chars(s);
    let t = trim_chars(&cs);
    let norm = normalize_duration(&t);
    let text = chars_to_string(norm);
    parse_clock_time(text.as_str())
}

} // verus!
