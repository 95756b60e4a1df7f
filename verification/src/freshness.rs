//! Freshness policies of the source-acquisition stage: when an HTTP source is
//! re-fetched, when a git clone counts as behind its remote, when a local
//! file is re-copied, and when the build command re-runs.

use vstd::prelude::*;

use crate::scan::{chars_have_prefix, find_char, spec_char_index, spec_trim, trim_chars};
use crate::text::{chars_to_string, str_chars};

verus! {

// ---------------------------------------------------------------------------
// HTTP freshness
// ---------------------------------------------------------------------------

/// The HTTP freshness policy over the two timestamps (seconds since the
/// epoch).  With caching off, or without a local copy, the source is stale.
/// With a local copy and no remote timestamp the source counts as up to date.
/// Otherwise it is re-fetched exactly when the remote timestamp is not less
/// than or equal to the local one.
pub open spec fn spec_http_stale(cache: bool, local: Option<i64>, remote: Option<i64>) -> bool {
    match (if cache {
        local
    } else {
        Option::<i64>::None
    }, remote) {
        (Option::None, _) => true,
        (Option::Some(_), Option::None) => false,
        (Option::Some(l), Option::Some(r)) => !(r <= l),
    }
}

/// Whether one HTTP source must be re-fetched.
pub fn http_source_stale(cache: bool, local: Option<i64>, remote: Option<i64>) -> (r: bool)
    ensures
        r == spec_http_stale(cache, local, remote),
{
    let eff = if cache {
        local
    } else {
        Option::None
    };
    match (eff, remote) {
        (Option::None, _) => true,
        (Option::Some(_), Option::None) => false,
        (Option::Some(l), Option::Some(rm)) => !(rm <= l),
    }
}

/// Whether the remote is probed at all: only when a cached local copy exists,
/// so that a source that must be fetched anyway does not cost a probe.
pub fn should_probe_remote(cache: bool, local: &Option<i64>) -> (r: bool)
    ensures
        r == (cache && local is Some),
{
    cache && local.is_some()
}

/// The HTTP freshness policy, spelled out: a source with a cached local copy
/// is re-fetched if and only if the remote timestamp does not say the copy is
/// at least as new; an unknown remote timestamp never forces a fetch, and a
/// missing local copy always does.
pub proof fn lemma_http_freshness_policy(l: i64, r: i64)
    ensures
        spec_http_stale(true, Option::Some(l), Option::Some(r)) == !(r <= l),
        !spec_http_stale(true, Option::Some(l), Option::None),
        spec_http_stale(true, Option::None, Option::Some(r)),
        spec_http_stale(true, Option::None, Option::None),
        spec_http_stale(false, Option::Some(l), Option::Some(r)),
{
}

// ---------------------------------------------------------------------------
// Last-Modified headers
// ---------------------------------------------------------------------------

/// What chrono parses out of an HTTP `Last-Modified` date string (format
/// `%a, %d %b %Y %T GMT`), as seconds since the epoch; the result depends on
/// the characters alone.
pub uninterp spec fn http_date_of(s: Seq<char>) -> Option<i64>;

/// Relies on chrono's `NaiveDateTime::parse_from_str` with the fixed
/// Last-Modified format, and on `NaiveDateTime::and_utc` /
/// `DateTime::timestamp` to turn the parsed date into epoch seconds; the
/// result is a function of the input string alone.
#[verifier::external_body]
fn parse_http_date(s: &str) -> (r: Option<i64>)
    ensures
        r == http_date_of(s@),
{
    chrono::NaiveDateTime::parse_from_str(s, "%a, %d %b %Y %T GMT").ok().map(
        |d| d.and_utc().timestamp(),
    )
}

/// The timestamp one header line contributes: a trimmed line that starts with
/// `Last-Modified` is parsed after that label, every other line contributes
/// nothing.
pub open spec fn spec_header_date(line: Seq<char>) -> Option<i64> {
    let t = spec_trim(line);
    let k = "Last-Modified: "@.len() as int;
    if "Last-Modified"@.is_prefix_of(t) {
        if k <= t.len() {
            http_date_of(t.skip(k))
        } else {
            http_date_of(Seq::empty())
        }
    } else {
        Option::None
    }
}

/// The remote timestamp a probe's header lines report: the last header line
/// that carries a parseable `Last-Modified` date wins.
pub open spec fn spec_last_modified(headers: Seq<Seq<char>>) -> Option<i64>
    decreases headers.len(),
{
    if headers.len() == 0 {
        Option::None
    } else {
        match spec_header_date(headers.last()) {
            Option::Some(d) => Option::Some(d),
            Option::None => spec_last_modified(headers.drop_last()),
        }
    }
}

/// The timestamp one header line contributes.
pub fn header_date(line: &str) -> (r: Option<i64>)
    ensures
        r == spec_header_date(line@),
{
    let cs = str_chars(line);
    let t = trim_chars(&cs);
    let label = str_chars("Last-Modified");
    if chars_have_prefix(&t, &label) {
        let with_sep = "Last-Modified: ";
        let skip_n = with_sep.unicode_len();
        let mut value: Vec<char> = Vec::new();
        let mut i: usize = skip_n;
        let n = t.len();
        while i < n
            invariant
                n == t@.len(),
                skip_n == with_sep@.len(),
                n < skip_n ==> i == skip_n && value@ == Seq::<char>::empty(),
                n >= skip_n ==> skip_n <= i <= n && value@ == t@.skip(skip_n as int).take(
                    i as int - skip_n as int,
                ),
            decreases n - i,
        {
            value.push(t[i]);
            proof {
                let base = t@.skip(skip_n as int);
                assert(base.take(i + 1 - skip_n as int) =~= base.take(i - skip_n as int).push(
                    t@[i as int],
                ));
            }
            i += 1;
        }
        proof {
            if n >= skip_n {
                assert(t@.skip(skip_n as int).take(n as int - skip_n as int) =~= t@.skip(
                    skip_n as int,
                ));
                assert(value@ == t@.skip(skip_n as int));
            }
        }
        let value_str = chars_to_string(value);
        parse_http_date(value_str.as_str())
    } else {
        Option::None
    }
}

/// Scans a probe's header lines for the remote timestamp.
pub fn last_modified_from_headers(headers: &Vec<String>) -> (r: Option<i64>)
    ensures
        r == spec_last_modified(headers.deep_view()),
{
    let n = headers.len();
    let mut cur: Option<i64> = Option::None;
    let mut i: usize = 0;
    proof {
        assert(headers.deep_view().take(0) =~= Seq::<Seq<char>>::empty());
    }
    while i < n
        invariant
            i <= n,
            n == headers@.len(),
            cur == spec_last_modified(headers.deep_view().take(i as int)),
        decreases n - i,
    {
        let d = header_date(headers[i].as_str());
        proof {
            let dv = headers.deep_view();
            assert(dv[i as int] == headers@[i as int]@);
            assert(dv.take(i + 1 as int).drop_last() =~= dv.take(i as int));
            assert(dv.take(i + 1 as int).last() == dv[i as int]);
        }
        if d.is_some() {
            cur = d;
        }
        i += 1;
    }
    proof {
        assert(headers.deep_view().take(n as int) =~= headers.deep_view());
    }
    cur
}

// ---------------------------------------------------------------------------
// Git freshness
// ---------------------------------------------------------------------------

/// The second line of a text, where lines are separated by `\n`; empty when
/// there is no second line.
pub open spec fn spec_second_line(s: Seq<char>) -> Seq<char> {
    let nl = spec_char_index(s, '\n');
    if nl == s.len() {
        Seq::empty()
    } else {
        let tail = s.skip(nl + 1);
        tail.take(spec_char_index(tail, '\n'))
    }
}

/// Whether a `git status` output says the local clone is behind its remote:
/// its second line starts with `Your branch is behind`.
pub open spec fn spec_git_behind(stdout: Seq<char>) -> bool {
    "Your branch is behind"@.is_prefix_of(spec_second_line(stdout))
}

/// Whether a `git status` output reports the clone behind its remote.
pub fn git_status_behind(stdout: &str) -> (r: bool)
    ensures
        r == spec_git_behind(stdout@),
{
    let cs = str_chars(stdout);
    let nl = find_char(&cs, '\n');
    if nl == cs.len() {
        proof {
            reveal_strlit("Your branch is behind");
            assert(spec_second_line(cs@) =~= Seq::<char>::empty());
            assert(!"Your branch is behind"@.is_prefix_of(Seq::<char>::empty()));
        }
        return false;
    }
    let n = cs.len();
    let mut tail: Vec<char> = Vec::new();
    let mut i: usize = nl + 1;
    proof {
        assert(cs@.skip(nl + 1).take(0) =~= Seq::<char>::empty());
    }
    while i < n
        invariant
            nl + 1 <= i <= n,
            n == cs@.len(),
            nl < n,
            tail@ == cs@.skip(nl + 1).take(i as int - (nl + 1)),
        decreases n - i,
    {
        tail.push(cs[i]);
        proof {
            let base = cs@.skip(nl + 1);
            assert(base.take(i + 1 - (nl + 1)) =~= base.take(i as int - (nl + 1)).push(
                cs@[i as int],
            ));
        }
        i += 1;
    }
    proof {
        assert(cs@.skip(nl + 1).take(n - (nl + 1)) =~= cs@.skip(nl + 1));
    }
    let second_nl = find_char(&tail, '\n');
    let mut second: Vec<char> = Vec::new();
    let mut j: usize = 0;
    proof {
        assert(tail@.take(0) =~= Seq::<char>::empty());
    }
    while j < second_nl
        invariant
            j <= second_nl,
            second_nl <= tail@.len(),
            second@ == tail@.take(j as int),
        decreases second_nl - j,
    {
        second.push(tail[j]);
        proof {
            assert(tail@.take(j + 1 as int) =~= tail@.take(j as int).push(tail@[j as int]));
        }
        j += 1;
    }
    let label = str_chars("Your branch is behind");
    let r = chars_have_prefix(&second, &label);
    proof {
        assert(second@ == spec_second_line(cs@));
    }
    r
}

// ---------------------------------------------------------------------------
// Local-copy freshness and the build command
// ---------------------------------------------------------------------------

/// The local-copy policy: an entry is copied unless caching is on and both
/// modification times are known with the destination strictly newer than the
/// source.
pub open spec fn spec_local_entry_stale(cache: bool, src: Option<i64>, dst: Option<i64>) -> bool {
    !(cache && match (src, dst) {
        (Option::Some(s), Option::Some(d)) => s < d,
        _ => false,
    })
}

/// Whether one local entry must be copied again.
pub fn local_entry_stale(cache: bool, src: Option<i64>, dst: Option<i64>) -> (r: bool)
    ensures
        r == spec_local_entry_stale(cache, src, dst),
{
    if !cache {
        return true;
    }
    match (src, dst) {
        (Option::Some(s), Option::Some(d)) => !(s < d),
        _ => true,
    }
}

/// Whether the declared build command runs: always when `always_rebuild` is
/// set, otherwise only while the completion sentinel is missing.
pub fn should_run_build(always_rebuild: &Option<bool>, lock_exists: bool) -> (r: bool)
    ensures
        r == (always_rebuild == Option::Some(true) || !lock_exists),
{
    let forced = match always_rebuild {
        Option::Some(b) => *b,
        Option::None => false,
    };
    forced || !lock_exists
}

/// The path of a synced entry relative to a directory prefix: `Some` of the
/// remainder when `prefix` really is a prefix, `None` otherwise.
pub fn entry_relative_path(full: &str, prefix: &str) -> (r: Option<String>)
    ensures
        match r {
            Option::Some(ref rel) => prefix@.is_prefix_of(full@) && full@ == prefix@ + rel@,
            Option::None => !prefix@.is_prefix_of(full@),
        },
{
    let fc = str_chars(full);
    let pc = str_chars(prefix);
    if !chars_have_prefix(&fc, &pc) {
        return Option::None;
    }
    let n = fc.len();
    let m = pc.len();
    let mut rel: Vec<char> = Vec::new();
    let mut i: usize = m;
    proof {
        assert(fc@.subrange(m as int, m as int) =~= Seq::<char>::empty());
    }
    while i < n
        invariant
            m <= i <= n,
            n == fc@.len(),
            rel@ == fc@.subrange(m as int, i as int),
        decreases n - i,
    {
        rel.push(fc[i]);
        proof {
            assert(fc@.subrange(m as int, i + 1 as int) =~= fc@.subrange(m as int, i as int).push(
                fc@[i as int],
            ));
        }
        i += 1;
    }
    proof {
        assert(full@ =~= prefix@ + fc@.subrange(m as int, n as int));
    }
    Option::Some(chars_to_string(rel))
}

} // verus!
