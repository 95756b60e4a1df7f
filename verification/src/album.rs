//! Albums: a named ordered list of tracks, the decisions of the combined
//! build, and the runtime arithmetic of the printed track list.

use vstd::prelude::*;

use crate::scan::{path_join, spec_escape_quotes, escape_quotes_chars};
use crate::text::{chars_to_string, str_chars};

verus! {

/// An album's identity: its name, the root directory its configuration file
/// lives under, and the root directory its derived artifacts live under.
#[derive(Clone, Debug)]
pub struct AlbumName {
    pub name: String,
    pub source_root: String,
    pub dest_root: String,
}

pub struct AlbumNameV {
    pub name: Seq<char>,
    pub source_root: Seq<char>,
    pub dest_root: Seq<char>,
}

impl View for AlbumName {
    type V = AlbumNameV;

    open spec fn view(&self) -> AlbumNameV {
        AlbumNameV { name: self.name@, source_root: self.source_root@, dest_root: self.dest_root@ }
    }
}

impl AlbumName {
    /// An album identity under the given source and artifact roots.
    pub fn new(name: String, source_root: String, dest_root: String) -> (r: AlbumName)
        ensures
            r@.name == name@,
            r@.source_root == source_root@,
            r@.dest_root == dest_root@,
    {
        AlbumName { name, source_root, dest_root }
    }

    /// The album's name.
    pub fn get_name(&self) -> (r: String)
        ensures
            r@ == self@.name,
    {
        self.name.clone()
    }

    /// The album's configuration file.
    pub fn source_file(&self) -> (r: String)
        ensures
            r@ == self@.source_root + "/"@ + self@.name + ".toml"@,
    {
        let mut s = path_join(self.source_root.as_str(), self.name.as_str());
        s.append(".toml");
        s
    }

    /// The directory the album's derived artifacts live in.
    pub fn dest_dir(&self) -> (r: String)
        ensures
            r@ == self@.dest_root + "/"@ + self@.name,
    {
        path_join(self.dest_root.as_str(), self.name.as_str())
    }

    /// The album's working directory.
    pub fn build_dir(&self) -> (r: String)
        ensures
            r@ == self@.dest_root + "/"@ + self@.name + "/"@ + "build"@,
    {
        let d = self.dest_dir();
        path_join(d.as_str(), "build")
    }

    /// The combined artifact's path, from the album's title.
    pub fn combined_artifact(&self, title: &str) -> (r: String)
        ensures
            r@ == self@.dest_root + "/"@ + self@.name + "/"@ + title@ + ".flac"@,
    {
        let d = self.dest_dir();
        let mut s = path_join(d.as_str(), title);
        s.append(".flac");
        s
    }
}

/// An album as declared in its configuration file: a title and an ordered
/// list of track names.
#[derive(Clone, Debug, PartialEq)]
pub struct Album {
    pub title: String,
    pub tracks: Vec<String>,
}

pub struct AlbumV {
    pub title: Seq<char>,
    pub tracks: Seq<Seq<char>>,
}

impl View for Album {
    type V = AlbumV;

    open spec fn view(&self) -> AlbumV {
        AlbumV { title: self.title@, tracks: self.tracks.deep_view() }
    }
}

/// The album configuration file's top-level shape.
#[derive(Clone, Debug, PartialEq)]
pub struct AlbumConfig {
    pub album: Album,
}

impl View for AlbumConfig {
    type V = AlbumV;

    open spec fn view(&self) -> AlbumV {
        self.album@
    }
}

/// The directory the per-track copies live in, inside the album's artifact
/// directory.
pub fn track_dir_name() -> (r: &'static str)
    ensures
        r@ == "individual_tracks"@,
{
    "individual_tracks"
}

/// The album-side path of one track's copied artifact, from its declared
/// output name.
pub fn album_track_file(album_dest_dir: &str, output_name: &str) -> (r: String)
    ensures
        r@ == album_dest_dir@ + "/"@ + "individual_tracks"@ + "/"@ + output_name@ + ".flac"@,
{
    let d = path_join(album_dest_dir, "individual_tracks");
    let mut f = path_join(d.as_str(), output_name);
    f.append(".flac");
    f
}

/// Whether one track's artifact must be copied into the album directory
/// again: it is copied unless both modification times are known and the
/// album-side copy is strictly newer.
pub fn album_track_needs_copy(time_track: Option<i64>, time_album: Option<i64>) -> (r: bool)
    ensures
        r == !(match (time_track, time_album) {
            (Option::Some(t), Option::Some(a)) => a > t,
            _ => false,
        }),
{
    match (time_track, time_album) {
        (Option::Some(t), Option::Some(a)) => !(a > t),
        _ => true,
    }
}

/// Whether the combined artifact must be rebuilt: some track was copied
/// afresh, or the combined artifact is missing.
pub fn album_recombine_needed(copied: &Vec<bool>, combined_exists: bool) -> (r: bool)
    ensures
        r == ((exists|i: int| 0 <= i < copied@.len() && copied@[i]) || !combined_exists),
{
    let n = copied.len();
    let mut i: usize = 0;
    while i < n
        invariant
            i <= n,
            n == copied@.len(),
            forall|j: int| 0 <= j < i as int ==> !copied@[j],
        decreases n - i,
    {
        if copied[i] {
            return true;
        }
        i += 1;
    }
    !combined_exists
}

/// The concatenation inputs: each track's album-side artifact followed by the
/// silence file.
pub fn interleave_with(files: &Vec<String>, sep: &str) -> (r: Vec<String>)
    ensures
        r@.len() == 2 * files@.len(),
        forall|i: int|
            0 <= i < r@.len() ==> (#[trigger] r@[i])@ == (if i % 2 == 0 {
                files@[i / 2]@
            } else {
                sep@
            }),
{
    let n = files.len();
    let mut out: Vec<String> = Vec::new();
    let mut i: usize = 0;
    while i < n
        invariant
            i <= n,
            n == files@.len(),
            out@.len() == 2 * i as int,
            forall|j: int|
                0 <= j < out@.len() ==> (#[trigger] out@[j])@ == (if j % 2 == 0 {
                    files@[j / 2]@
                } else {
                    sep@
                }),
        decreases n - i,
    {
        let ghost prev = out@;
        out.push(files[i].clone());
        out.push(sep.to_owned());
        proof {
            assert forall|j: int| 0 <= j < out@.len() implies (#[trigger] out@[j])@ == (if j % 2
                == 0 {
                files@[j / 2]@
            } else {
                sep@
            }) by {
                if j < prev.len() {
                    assert(out@[j] == prev[j]);
                } else if j == 2 * i as int {
                    assert(j % 2 == 0 && j / 2 == i as int);
                } else {
                    assert(j == 2 * i as int + 1);
                    assert(j % 2 == 1);
                }
            }
        }
        i += 1;
    }
    out
}

// ---------------------------------------------------------------------------
// The concatenation list file
// ---------------------------------------------------------------------------

/// One line of the concatenation list: the path, quoted, with single quotes
/// escaped.
pub open spec fn spec_file_line(p: Seq<char>) -> Seq<char> {
    "file '"@ + spec_escape_quotes(p) + "'"@
}

/// Lines joined with a newline, without a trailing newline.
pub open spec fn spec_join_lines(ls: Seq<Seq<char>>) -> Seq<char>
    decreases ls.len(),
{
    if ls.len() == 0 {
        Seq::empty()
    } else if ls.len() == 1 {
        ls[0]
    } else {
        spec_join_lines(ls.drop_last()) + seq!['\n'] + ls.last()
    }
}

/// The text of the concatenation list for the given input paths.
pub open spec fn spec_concat_list_text(paths: Seq<Seq<char>>) -> Seq<char> {
    spec_join_lines(paths.map_values(|p: Seq<char>| spec_file_line(p)))
}

/// Builds the concatenation list text: one `file '...'` line per input path,
/// quotes escaped, lines joined with newlines.
pub fn concat_list_text(paths: &Vec<String>) -> (r: String)
    ensures
        r@ == spec_concat_list_text(paths.deep_view()),
{
    let n = paths.len();
    let mut out: Vec<char> = Vec::new();
    let mut i: usize = 0;
    proof {
        assert(paths.deep_view().take(0).map_values(|p: Seq<char>| spec_file_line(p))
            =~= Seq::<Seq<char>>::empty());
        assert(out@ =~= spec_join_lines(
            paths.deep_view().take(0).map_values(|p: Seq<char>| spec_file_line(p)),
        ));
    }
    while i < n
        invariant
            i <= n,
            n == paths@.len(),
            paths.deep_view().len() == n as int,
            out@ == spec_join_lines(
                paths.deep_view().take(i as int).map_values(|p: Seq<char>| spec_file_line(p)),
            ),
        decreases n - i,
    {
        if i > 0 {
            out.push('\n');
        }
        let mut head = str_chars("file '");
        out.append(&mut head);
        let pc = str_chars(paths[i].as_str());
        let mut esc = escape_quotes_chars(&pc);
        out.append(&mut esc);
        out.push('\'');
        proof {
            let dv = paths.deep_view();
            let m0 = dv.take(i as int).map_values(|p: Seq<char>| spec_file_line(p));
            let m1 = dv.take(i + 1 as int).map_values(|p: Seq<char>| spec_file_line(p));
            assert(dv[i as int] == paths@[i as int]@);
            assert(m1.drop_last() =~= m0);
            assert(m1.last() == spec_file_line(dv[i as int]));
            reveal_strlit("'");
            assert("'"@ =~= seq!['\'']);
            assert(spec_file_line(dv[i as int]) =~= "file '"@ + spec_escape_quotes(dv[i as int])
                + "'"@);
            if i == 0 {
                assert(m0.len() == 0);
                assert(out@ =~= m1.last());
                assert(out@ =~= spec_join_lines(m1));
            } else {
                assert(m1.len() >= 2);
                assert(out@ =~= spec_join_lines(m0) + seq!['\n'] + m1.last());
                assert(out@ =~= spec_join_lines(m1));
            }
        }
        i += 1;
    }
    proof {
        assert(paths.deep_view().take(n as int) =~= paths.deep_view());
    }
    chars_to_string(out)
}

// ---------------------------------------------------------------------------
// Runtimes
// ---------------------------------------------------------------------------

/// A track's runtime, normalized to whole seconds and a sub-second
/// nanosecond part.
#[derive(Clone, Copy, Debug, PartialEq, Eq, Structural)]
pub struct Runtime {
    pub secs: u64,
    pub nanos: u32,
}

impl Runtime {
    /// The nanosecond part stays below one second.
    pub open spec fn wf(self) -> bool {
        self.nanos < 1_000_000_000
    }

    /// The runtime as a total nanosecond count.
    pub open spec fn total_nanos(self) -> int {
        self.secs as int * 1_000_000_000 + self.nanos as int
    }
}

/// Normalizes what the clock parser reports (seconds of the day and a
/// nanosecond part that may mark a leap second) into a runtime.
pub fn runtime_from_clock(secs: u32, nanos: u32) -> (r: Runtime)
    requires
        nanos < 2_000_000_000,
    ensures
        r.wf(),
        r.total_nanos() == secs as int * 1_000_000_000 + nanos as int,
{
    if nanos >= 1_000_000_000 {
        Runtime { secs: secs as u64 + 1, nanos: nanos - 1_000_000_000 }
    } else {
        Runtime { secs: secs as u64, nanos }
    }
}

/// The total of a list of runtimes, in nanoseconds.
pub open spec fn spec_total_runtime(ts: Seq<Runtime>) -> int
    decreases ts.len(),
{
    if ts.len() == 0 {
        0
    } else {
        spec_total_runtime(ts.drop_last()) + ts.last().total_nanos()
    }
}

/// Every prefix total is bounded by the whole total.
proof fn lemma_total_prefix(ts: Seq<Runtime>, k: int)
    requires
        0 <= k <= ts.len(),
    ensures
        spec_total_runtime(ts.take(k)) <= spec_total_runtime(ts),
    decreases ts.len() - k,
{
    if k < ts.len() {
        lemma_total_prefix(ts, k + 1);
        assert(ts.take(k + 1).drop_last() =~= ts.take(k));
        assert(ts.take(k + 1).last() == ts[k]);
        assert(ts[k].total_nanos() >= 0);
    } else {
        assert(ts.take(k) =~= ts);
    }
}

/// The cumulative runtimes of an ordered track list: entry `i` is the total
/// of the first `i + 1` runtimes, which is the absolute time at which track
/// `i` ends in the combined artifact.
pub fn cumulative_runtimes(ts: &Vec<Runtime>) -> (r: Vec<Runtime>)
    requires
        forall|i: int| 0 <= i < ts@.len() ==> (#[trigger] ts@[i]).wf(),
        spec_total_runtime(ts@) <= u64::MAX as int * 1_000_000_000 + 999_999_999,
    ensures
        r@.len() == ts@.len(),
        forall|i: int|
            0 <= i < r@.len() ==> (#[trigger] r@[i]).wf() && r@[i].total_nanos()
                == spec_total_runtime(ts@.take(i + 1)),
{
    let n = ts.len();
    let mut out: Vec<Runtime> = Vec::new();
    let mut acc = Runtime { secs: 0, nanos: 0 };
    let mut i: usize = 0;
    proof {
        assert(ts@.take(0) =~= Seq::<Runtime>::empty());
    }
    while i < n
        invariant
            i <= n,
            n == ts@.len(),
            forall|j: int| 0 <= j < n as int ==> (#[trigger] ts@[j]).wf(),
            spec_total_runtime(ts@) <= u64::MAX as int * 1_000_000_000 + 999_999_999,
            acc.wf(),
            acc.total_nanos() == spec_total_runtime(ts@.take(i as int)),
            out@.len() == i as int,
            forall|j: int|
                0 <= j < i as int ==> (#[trigger] out@[j]).wf() && out@[j].total_nanos()
                    == spec_total_runtime(ts@.take(j + 1)),
        decreases n - i,
    {
        let t = ts[i];
        proof {
            assert(ts@.take(i + 1 as int).drop_last() =~= ts@.take(i as int));
            assert(ts@.take(i + 1 as int).last() == ts@[i as int]);
            lemma_total_prefix(ts@, i + 1 as int);
        }
        let mut ns = acc.nanos + t.nanos;
        let mut carry: u64 = 0;
        if ns >= 1_000_000_000 {
            ns = ns - 1_000_000_000;
            carry = 1;
        }
        proof {
            let new_total = spec_total_runtime(ts@.take(i + 1 as int));
            assert(new_total == (acc.secs as int + t.secs as int + carry as int) * 1_000_000_000
                + ns as int);
            assert(acc.secs as int + t.secs as int + carry as int <= u64::MAX as int);
        }
        acc = Runtime { secs: acc.secs + t.secs + carry, nanos: ns };
        out.push(acc);
        i += 1;
    }
    out
}

} // verus!
