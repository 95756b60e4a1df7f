//! Fingerprint records: the canonical serialized snapshot of each stage's
//! configuration.
//!
//! `*_record_text` is the canonical text of a configuration, and
//! `parse_*_record` recovers a configuration from such a text.  The parser
//! contracts state both directions exactly: a successful parse means the text
//! is the canonical record of the result, and the canonical record of any
//! configuration always parses back to it (the round-trip law).  On any other
//! input the parsers return `None` rather than failing, which is what lets a
//! corrupted record force a rebuild instead of aborting a build.

use vstd::prelude::*;

use crate::config::{opt_str_view, Build, BuildV, Clip, ClipV, Clips, ClipsOpt, ClipsOptV, Output,
    OutputV, Sox, SoxV};
use crate::text::{chars_to_string, push_bool, push_opt_bool, push_opt_str, push_str_field,
    push_u64, spec_enc_bool, spec_enc_opt_bool, spec_enc_opt_str, spec_enc_str, spec_enc_u64,
    str_chars, take_bool, take_char, take_opt_bool, take_opt_str, take_str, take_u64,
    lemma_skip_block};

verus! {

// ---------------------------------------------------------------------------
// Stage kinds
// ---------------------------------------------------------------------------

/// The four fingerprinted stages, in pipeline order.
#[derive(Clone, Copy, Debug, PartialEq, Eq, Structural)]
pub enum StageKind {
    Acquisition,
    RawOutput,
    Transform,
    Edit,
}

impl StageKind {
    /// The file name of this stage's fingerprint record, inside the item's
    /// artifact directory.
    pub fn record_filename(self) -> (r: &'static str)
        ensures
            self == StageKind::Acquisition ==> r@ == "build.record"@,
            self == StageKind::RawOutput ==> r@ == "output.record"@,
            self == StageKind::Transform ==> r@ == "sox.record"@,
            self == StageKind::Edit ==> r@ == "clip.record"@,
    {
        match self {
            StageKind::Acquisition => "build.record",
            StageKind::RawOutput => "output.record",
            StageKind::Transform => "sox.record",
            StageKind::Edit => "clip.record",
        }
    }
}

// ---------------------------------------------------------------------------
// Record encodings
// ---------------------------------------------------------------------------

pub open spec fn spec_output_record(v: OutputV) -> Seq<char> {
    seq!['o'] + spec_enc_str(v.name) + spec_enc_opt_str(v.build_command) + spec_enc_opt_bool(
        v.cache,
    ) + spec_enc_opt_bool(v.debug) + spec_enc_str(v.output_command) + spec_enc_str(v.output_buffer)
}

pub open spec fn spec_sox_record(v: SoxV) -> Seq<char> {
    seq!['s'] + spec_enc_u64(v.bit_depth as nat) + spec_enc_u64(v.sample_rate as nat)
        + spec_enc_u64(v.channels as nat) + spec_enc_str(v.encoding) + spec_enc_opt_str(
        v.other_options_pre,
    ) + spec_enc_opt_str(v.other_options_post) + spec_enc_opt_str(v.tempo)
}

/// A string list: element count, then each element as a string field.
pub open spec fn spec_enc_str_list(l: Seq<Seq<char>>) -> Seq<char>
    decreases l.len(),
{
    if l.len() == 0 {
        Seq::empty()
    } else {
        spec_enc_str_list(l.drop_last()) + spec_enc_str(l.last())
    }
}

pub open spec fn spec_enc_strs(l: Seq<Seq<char>>) -> Seq<char> {
    spec_enc_u64(l.len()) + spec_enc_str_list(l)
}

pub open spec fn spec_build_record(v: BuildV) -> Seq<char> {
    seq!['b'] + spec_enc_str(v.build_command) + spec_enc_strs(v.http_sources) + spec_enc_strs(
        v.git_sources,
    ) + spec_enc_opt_bool(v.git_update) + spec_enc_opt_bool(v.always_rebuild) + spec_enc_bool(
        v.copy_me,
    )
}

/// One clip: start, end, position.
pub open spec fn spec_enc_clip(c: ClipV) -> Seq<char> {
    spec_enc_u64(c.start as nat) + spec_enc_u64(c.end as nat) + spec_enc_str(c.position)
}

pub open spec fn spec_enc_clip_list(l: Seq<ClipV>) -> Seq<char>
    decreases l.len(),
{
    if l.len() == 0 {
        Seq::empty()
    } else {
        spec_enc_clip_list(l.drop_last()) + spec_enc_clip(l.last())
    }
}

pub open spec fn spec_enc_clips(l: Seq<ClipV>) -> Seq<char> {
    spec_enc_u64(l.len()) + spec_enc_clip_list(l)
}

pub open spec fn spec_clip_record(v: ClipsOptV) -> Seq<char> {
    seq!['c'] + (match v.clip {
        Option::None => seq!['-'],
        Option::Some(l) => seq!['+'] + spec_enc_clips(l),
    })
}

// ---------------------------------------------------------------------------
// List lemmas
// ---------------------------------------------------------------------------

/// Unfolding a string-list encoding at the front.
pub proof fn lemma_enc_str_list_first(l: Seq<Seq<char>>)
    requires
        l.len() >= 1,
    ensures
        spec_enc_str_list(l) == spec_enc_str(l.first()) + spec_enc_str_list(l.drop_first()),
    decreases l.len(),
{
    if l.len() == 1 {
        assert(l.drop_last() =~= Seq::<Seq<char>>::empty());
        assert(l.drop_first() =~= Seq::<Seq<char>>::empty());
        assert(l.last() == l.first());
        assert(spec_enc_str_list(l) =~= spec_enc_str(l.first()) + spec_enc_str_list(
            l.drop_first(),
        ));
    } else {
        let m = l.drop_last();
        lemma_enc_str_list_first(m);
        assert(m.first() == l.first());
        assert(l.drop_first().drop_last() =~= m.drop_first());
        assert(l.drop_first().last() == l.last());
        assert(l.drop_first().len() >= 1);
        assert(spec_enc_str_list(l.drop_first()) == spec_enc_str_list(m.drop_first())
            + spec_enc_str(l.last()));
        assert(spec_enc_str_list(l) =~= spec_enc_str(l.first()) + spec_enc_str_list(
            l.drop_first(),
        ));
    }
}

/// Each string field takes at least one character, so a list encoding is at
/// least as long as the list.
pub proof fn lemma_enc_str_list_len(l: Seq<Seq<char>>)
    ensures
        spec_enc_str_list(l).len() >= l.len(),
    decreases l.len(),
{
    if l.len() > 0 {
        lemma_enc_str_list_len(l.drop_last());
        crate::text::lemma_dec_digits(l.last().len());
    }
}

/// Unfolding a clip-list encoding at the front.
pub proof fn lemma_enc_clip_list_first(l: Seq<ClipV>)
    requires
        l.len() >= 1,
    ensures
        spec_enc_clip_list(l) == spec_enc_clip(l.first()) + spec_enc_clip_list(l.drop_first()),
    decreases l.len(),
{
    if l.len() == 1 {
        assert(l.drop_last() =~= Seq::<ClipV>::empty());
        assert(l.drop_first() =~= Seq::<ClipV>::empty());
        assert(l.last() == l.first());
        assert(spec_enc_clip_list(l) =~= spec_enc_clip(l.first()) + spec_enc_clip_list(
            l.drop_first(),
        ));
    } else {
        let m = l.drop_last();
        lemma_enc_clip_list_first(m);
        assert(m.first() == l.first());
        assert(l.drop_first().drop_last() =~= m.drop_first());
        assert(l.drop_first().last() == l.last());
        assert(l.drop_first().len() >= 1);
        assert(spec_enc_clip_list(l.drop_first()) == spec_enc_clip_list(m.drop_first())
            + spec_enc_clip(l.last()));
        assert(spec_enc_clip_list(l) =~= spec_enc_clip(l.first()) + spec_enc_clip_list(
            l.drop_first(),
        ));
    }
}

/// Each clip encoding takes at least one character.
pub proof fn lemma_enc_clip_list_len(l: Seq<ClipV>)
    ensures
        spec_enc_clip_list(l).len() >= l.len(),
    decreases l.len(),
{
    if l.len() > 0 {
        lemma_enc_clip_list_len(l.drop_last());
        crate::text::lemma_dec_digits(l.last().start as nat);
    }
}

// ---------------------------------------------------------------------------
// List writers and readers
// ---------------------------------------------------------------------------

/// Appends a string-list field.
pub fn push_str_list(out: &mut Vec<char>, l: &Vec<String>)
    ensures
        final(out)@ == old(out)@ + spec_enc_strs(l.deep_view()),
{
    let n = l.len();
    push_u64(out, n as u64);
    let ghost base = out@;
    let mut i: usize = 0;
    proof {
        assert(spec_enc_str_list(l.deep_view().take(0)) =~= Seq::<char>::empty());
        assert(out@ =~= base + spec_enc_str_list(l.deep_view().take(0)));
        assert(l.deep_view().len() == n as int);
    }
    while i < n
        invariant
            i <= n,
            n == l@.len(),
            l.deep_view().len() == n as int,
            out@ == base + spec_enc_str_list(l.deep_view().take(i as int)),
        decreases n - i,
    {
        push_str_field(out, l[i].as_str());
        proof {
            let dv = l.deep_view();
            assert(dv[i as int] == l@[i as int]@);
            assert(dv.take(i + 1 as int).drop_last() =~= dv.take(i as int));
            assert(dv.take(i + 1 as int).last() == dv[i as int]);
            assert(out@ =~= base + spec_enc_str_list(dv.take(i + 1 as int)));
        }
        i += 1;
    }
    proof {
        assert(l.deep_view().take(n as int) =~= l.deep_view());
    }
}

/// The valid-list hypothesis at a position: the suffix there is a list body
/// of `cnt` string fields followed by `rest`.
pub open spec fn list_body_at(
    s: Seq<char>,
    p: int,
    cnt: int,
    xs: Seq<Seq<char>>,
    rest: Seq<char>,
) -> bool {
    s.skip(p) == spec_enc_str_list(xs) + rest && xs.len() == cnt
}

/// Reads a string-list field at `pos`.
#[verifier::rlimit(60)]
pub fn take_str_list(s: &Vec<char>, pos: &mut usize) -> (r: Option<Vec<String>>)
    requires
        *old(pos) <= s@.len(),
    ensures
        match r {
            Option::Some(ref v) => *old(pos) < *final(pos) <= s@.len() && s@.subrange(
                *old(pos) as int,
                *final(pos) as int,
            ) == spec_enc_strs(v.deep_view()),
            Option::None => *final(pos) == *old(pos),
        },
        forall|xs: Seq<Seq<char>>, rest: Seq<char>|
            #![trigger spec_enc_strs(xs).add(rest)]
            s@.skip(*old(pos) as int) == spec_enc_strs(xs) + rest ==> (r matches Option::Some(v)
                && v.deep_view() == xs && *final(pos) == *old(pos) + spec_enc_strs(xs).len()),
{
    let ghost p0 = *pos as int;
    let start = *pos;
    let slen = s.len();
    proof {
        // under the valid-input hypothesis the count field holds the length
        assert forall|xs: Seq<Seq<char>>, rest: Seq<char>|
            #![trigger spec_enc_strs(xs).add(rest)]
            s@.skip(p0) == spec_enc_strs(xs) + rest implies xs.len() <= u64::MAX && s@.skip(p0)
            == spec_enc_u64(xs.len()) + (spec_enc_str_list(xs) + rest) by {
            assert(spec_enc_strs(xs) + rest =~= spec_enc_u64(xs.len()) + (spec_enc_str_list(xs)
                + rest));
            lemma_enc_str_list_len(xs);
            assert(s@.skip(p0).len() == s@.len() - p0);
        }
    }
    let n_opt = take_u64(s, pos);
    match n_opt {
        Option::None => {
            proof {
                assert forall|xs: Seq<Seq<char>>, rest: Seq<char>|
                    #![trigger spec_enc_strs(xs).add(rest)]
                    s@.skip(p0) != spec_enc_strs(xs) + rest by {
                    if s@.skip(p0) == spec_enc_strs(xs) + rest {
                        let nl = xs.len() as u64;
                        assert(s@.skip(p0) == spec_enc_u64(nl as nat) + (spec_enc_str_list(xs)
                            + rest));
                    }
                }
            }
            Option::None
        },
        Option::Some(n) => {
            let ghost pstart = *pos as int;
            proof {
                assert forall|xs: Seq<Seq<char>>, rest: Seq<char>|
                    #![trigger spec_enc_strs(xs).add(rest)]
                    s@.skip(p0) == spec_enc_strs(xs) + rest implies n == xs.len() && s@.skip(
                    pstart,
                ) == spec_enc_str_list(xs) + rest by {
                    let nl = xs.len() as u64;
                    assert(s@.skip(p0) == spec_enc_u64(nl as nat) + (spec_enc_str_list(xs)
                        + rest));
                    lemma_skip_block(s@, p0, spec_enc_u64(xs.len()), spec_enc_str_list(xs) + rest);
                }
            }
            if n > (slen - *pos) as u64 {
                *pos = start;
                proof {
                    assert forall|xs: Seq<Seq<char>>, rest: Seq<char>|
                        #![trigger spec_enc_strs(xs).add(rest)]
                        s@.skip(p0) != spec_enc_strs(xs) + rest by {
                        if s@.skip(p0) == spec_enc_strs(xs) + rest {
                            lemma_enc_str_list_len(xs);
                            assert(s@.skip(pstart).len() == s@.len() - pstart);
                        }
                    }
                }
                return Option::None;
            }
            let cnt = n as usize;
            let mut out: Vec<String> = Vec::new();
            let mut i: usize = 0;
            let mut failed = false;
            proof {
                assert(s@.subrange(pstart, pstart) =~= Seq::<char>::empty());
                assert(out.deep_view().len() == 0);
                assert(spec_enc_str_list(out.deep_view()) =~= Seq::<char>::empty());
                assert forall|xs: Seq<Seq<char>>, rest: Seq<char>|
                    #![trigger spec_enc_str_list(xs).add(rest)]
                    list_body_at(s@, pstart, cnt as int, xs, rest) implies out.deep_view()
                    == xs.take(0) && s@.skip(*pos as int) == spec_enc_str_list(xs.skip(0))
                    + rest by {
                    assert(xs.take(0) =~= Seq::<Seq<char>>::empty());
                    assert(out.deep_view() =~= xs.take(0));
                    assert(xs.skip(0) =~= xs);
                }
            }
            while i < cnt && !failed
                invariant
                    i <= cnt,
                    0 <= pstart <= *pos as int <= s@.len(),
                    out@.len() == i as int,
                    s@.subrange(pstart, *pos as int) == spec_enc_str_list(out.deep_view()),
                    forall|xs: Seq<Seq<char>>, rest: Seq<char>|
                        #![trigger spec_enc_str_list(xs).add(rest)]
                        list_body_at(s@, pstart, cnt as int, xs, rest) ==> out.deep_view()
                            == xs.take(i as int) && s@.skip(*pos as int) == spec_enc_str_list(
                            xs.skip(i as int),
                        ) + rest,
                    failed ==> forall|xs: Seq<Seq<char>>, rest: Seq<char>|
                        #![trigger spec_enc_str_list(xs).add(rest)]
                        !list_body_at(s@, pstart, cnt as int, xs, rest),
                decreases cnt - i + (if failed {
                    0int
                } else {
                    1int
                }),
            {
                let ghost pcur = *pos as int;
                let ghost prev_dv = out.deep_view();
                let item = take_str(s, pos);
                match item {
                    Option::Some(v) => {
                        out.push(v);
                        proof {
                            let dv = out.deep_view();
                            assert(dv.drop_last() =~= prev_dv);
                            assert(dv.last() == out@[i as int]@);
                            assert(s@.subrange(pstart, *pos as int) =~= s@.subrange(pstart, pcur)
                                + s@.subrange(pcur, *pos as int));
                            assert(spec_enc_str_list(dv) == spec_enc_str_list(prev_dv)
                                + spec_enc_str(dv.last()));
                            assert(s@.subrange(pstart, *pos as int) =~= spec_enc_str_list(dv));
                            assert forall|xs: Seq<Seq<char>>, rest: Seq<char>|
                                #![trigger spec_enc_str_list(xs).add(rest)]
                                list_body_at(s@, pstart, cnt as int, xs, rest) implies dv
                                == xs.take(i + 1) && s@.skip(*pos as int) == spec_enc_str_list(
                                xs.skip(i + 1),
                            ) + rest by {
                                // previous iteration's alignment
                                assert(prev_dv == xs.take(i as int));
                                assert(s@.skip(pcur) == spec_enc_str_list(xs.skip(i as int))
                                    + rest);
                                lemma_enc_str_list_first(xs.skip(i as int));
                                assert(xs.skip(i as int).first() == xs[i as int]);
                                assert(xs.skip(i as int).drop_first() =~= xs.skip(i + 1));
                                assert(s@.skip(pcur) =~= spec_enc_str(xs[i as int]) + (
                                spec_enc_str_list(xs.skip(i + 1)) + rest));
                                // the take_str call consumed exactly that field
                                assert(out@[i as int]@ == xs[i as int]);
                                lemma_skip_block(
                                    s@,
                                    pcur,
                                    spec_enc_str(xs[i as int]),
                                    spec_enc_str_list(xs.skip(i + 1)) + rest,
                                );
                                assert(dv =~= xs.take(i + 1));
                            }
                        }
                        i += 1;
                    },
                    Option::None => {
                        proof {
                            assert forall|xs: Seq<Seq<char>>, rest: Seq<char>|
                                #![trigger spec_enc_str_list(xs).add(rest)]
                                !list_body_at(s@, pstart, cnt as int, xs, rest) by {
                                if list_body_at(s@, pstart, cnt as int, xs, rest) {
                                    assert(s@.skip(pcur) == spec_enc_str_list(xs.skip(i as int))
                                        + rest);
                                    assert(xs.skip(i as int).len() >= 1);
                                    lemma_enc_str_list_first(xs.skip(i as int));
                                    assert(s@.skip(pcur) =~= spec_enc_str(
                                        xs.skip(i as int).first(),
                                    ) + (spec_enc_str_list(xs.skip(i as int).drop_first())
                                        + rest));
                                }
                            }
                        }
                        failed = true;
                    },
                }
            }
            if failed {
                *pos = start;
                proof {
                    assert forall|xs: Seq<Seq<char>>, rest: Seq<char>|
                        #![trigger spec_enc_strs(xs).add(rest)]
                        s@.skip(p0) != spec_enc_strs(xs) + rest by {
                        if s@.skip(p0) == spec_enc_strs(xs) + rest {
                            assert(s@.skip(pstart) == spec_enc_str_list(xs) + rest);
                            assert(list_body_at(s@, pstart, cnt as int, xs, rest));
                            assert(spec_enc_str_list(xs) + rest == spec_enc_str_list(xs).add(
                                rest,
                            ));
                        }
                    }
                }
                return Option::None;
            }
            proof {
                assert(s@.subrange(p0, *pos as int) =~= s@.subrange(p0, pstart) + s@.subrange(
                    pstart,
                    *pos as int,
                ));
                assert(s@.subrange(p0, pstart) == spec_enc_u64(n as nat));
                assert(out.deep_view().len() == n as nat);
                assert(s@.subrange(p0, *pos as int) =~= spec_enc_strs(out.deep_view()));
                assert forall|xs: Seq<Seq<char>>, rest: Seq<char>|
                    #![trigger spec_enc_strs(xs).add(rest)]
                    s@.skip(p0) == spec_enc_strs(xs) + rest implies out.deep_view() == xs && *pos
                    == p0 + spec_enc_strs(xs).len() by {
                    assert(s@.skip(pstart) == spec_enc_str_list(xs) + rest);
                    assert(list_body_at(s@, pstart, cnt as int, xs, rest));
                    assert(spec_enc_str_list(xs) + rest == spec_enc_str_list(xs).add(rest));
                    assert(out.deep_view() == xs.take(cnt as int));
                    assert(xs.take(cnt as int) =~= xs);
                    assert(s@.skip(*pos as int) == spec_enc_str_list(xs.skip(cnt as int)) + rest);
                    assert(xs.skip(cnt as int) =~= Seq::<Seq<char>>::empty());
                    assert(spec_enc_str_list(Seq::<Seq<char>>::empty()).len() == 0);
                    assert(s@.skip(*pos as int).len() == s@.len() - *pos);
                    assert(s@.skip(pstart).len() == s@.len() - pstart);
                }
            }
            Option::Some(out)
        },
    }
}

/// Appends one clip.
pub fn push_clip(out: &mut Vec<char>, c: &Clip)
    ensures
        final(out)@ == old(out)@ + spec_enc_clip(c@),
{
    push_u64(out, c.start as u64);
    push_u64(out, c.end as u64);
    push_str_field(out, c.position.as_str());
    proof {
        assert(old(out)@ + spec_enc_u64(c.start as nat) + spec_enc_u64(c.end as nat)
            + spec_enc_str(c.position@) =~= old(out)@ + spec_enc_clip(c@));
    }
}

/// Reads one clip at `pos`.
pub fn take_clip(s: &Vec<char>, pos: &mut usize) -> (r: Option<Clip>)
    requires
        *old(pos) <= s@.len(),
    ensures
        match r {
            Option::Some(ref c) => *old(pos) < *final(pos) <= s@.len() && s@.subrange(
                *old(pos) as int,
                *final(pos) as int,
            ) == spec_enc_clip(c@),
            Option::None => *final(pos) == *old(pos),
        },
        forall|c: ClipV, rest: Seq<char>|
            #![trigger spec_enc_clip(c).add(rest)]
            s@.skip(*old(pos) as int) == spec_enc_clip(c) + rest ==> (r matches Option::Some(v)
                && v@ == c && *final(pos) == *old(pos) + spec_enc_clip(c).len()),
{
    let ghost p0 = *pos as int;
    let start = *pos;
    proof {
        assert forall|c: ClipV, rest: Seq<char>|
            #![trigger spec_enc_clip(c).add(rest)]
            s@.skip(p0) == spec_enc_clip(c) + rest implies s@.skip(p0) == spec_enc_u64(
            c.start as nat,
        ) + (spec_enc_u64(c.end as nat) + (spec_enc_str(c.position) + rest)) by {
            assert(spec_enc_clip(c) + rest =~= spec_enc_u64(c.start as nat) + (spec_enc_u64(
                c.end as nat,
            ) + (spec_enc_str(c.position) + rest)));
        }
    }
    let a_opt = take_u64(s, pos);
    let a = match a_opt {
        Option::Some(a) => a,
        Option::None => {
            proof {
                assert forall|c: ClipV, rest: Seq<char>|
                    #![trigger spec_enc_clip(c).add(rest)]
                    s@.skip(p0) != spec_enc_clip(c) + rest by {
                    if s@.skip(p0) == spec_enc_clip(c) + rest {
                        let n = c.start as u64;
                        assert(s@.skip(p0) == spec_enc_u64(n as nat) + (spec_enc_u64(c.end as nat)
                            + (spec_enc_str(c.position) + rest)));
                    }
                }
            }
            return Option::None;
        },
    };
    let ghost p1 = *pos as int;
    proof {
        assert forall|c: ClipV, rest: Seq<char>|
            #![trigger spec_enc_clip(c).add(rest)]
            s@.skip(p0) == spec_enc_clip(c) + rest implies a == c.start && s@.skip(p1)
            == spec_enc_u64(c.end as nat) + (spec_enc_str(c.position) + rest) by {
            let n = c.start as u64;
            assert(s@.skip(p0) == spec_enc_u64(n as nat) + (spec_enc_u64(c.end as nat) + (
            spec_enc_str(c.position) + rest)));
            lemma_skip_block(
                s@,
                p0,
                spec_enc_u64(c.start as nat),
                spec_enc_u64(c.end as nat) + (spec_enc_str(c.position) + rest),
            );
        }
    }
    let b_opt = take_u64(s, pos);
    let b = match b_opt {
        Option::Some(b) => b,
        Option::None => {
            *pos = start;
            proof {
                assert forall|c: ClipV, rest: Seq<char>|
                    #![trigger spec_enc_clip(c).add(rest)]
                    s@.skip(p0) != spec_enc_clip(c) + rest by {
                    if s@.skip(p0) == spec_enc_clip(c) + rest {
                        let n = c.end as u64;
                        assert(s@.skip(p1) == spec_enc_u64(n as nat) + (spec_enc_str(c.position)
                            + rest));
                    }
                }
            }
            return Option::None;
        },
    };
    let ghost p2 = *pos as int;
    proof {
        assert forall|c: ClipV, rest: Seq<char>|
            #![trigger spec_enc_clip(c).add(rest)]
            s@.skip(p0) == spec_enc_clip(c) + rest implies b == c.end && s@.skip(p2)
            == spec_enc_str(c.position) + rest by {
            let n = c.end as u64;
            assert(s@.skip(p1) == spec_enc_u64(n as nat) + (spec_enc_str(c.position) + rest));
            lemma_skip_block(
                s@,
                p1,
                spec_enc_u64(c.end as nat),
                spec_enc_str(c.position) + rest,
            );
        }
    }
    let text_opt = take_str(s, pos);
    let text = match text_opt {
        Option::Some(t) => t,
        Option::None => {
            *pos = start;
            proof {
                assert forall|c: ClipV, rest: Seq<char>|
                    #![trigger spec_enc_clip(c).add(rest)]
                    s@.skip(p0) != spec_enc_clip(c) + rest by {
                    if s@.skip(p0) == spec_enc_clip(c) + rest {
                        assert(s@.skip(p2) == spec_enc_str(c.position) + rest);
                    }
                }
            }
            return Option::None;
        },
    };
    if a > u32::MAX as u64 || b > u32::MAX as u64 {
        *pos = start;
        proof {
            assert forall|c: ClipV, rest: Seq<char>|
                #![trigger spec_enc_clip(c).add(rest)]
                s@.skip(p0) != spec_enc_clip(c) + rest by {
                if s@.skip(p0) == spec_enc_clip(c) + rest {
                    assert(a == c.start && b == c.end);
                }
            }
        }
        return Option::None;
    }
    let clip = Clip { start: a as u32, end: b as u32, position: text };
    proof {
        assert(s@.subrange(p0, *pos as int) =~= s@.subrange(p0, p1) + s@.subrange(p1, p2)
            + s@.subrange(p2, *pos as int));
        assert(s@.subrange(p0, *pos as int) =~= spec_enc_clip(clip@));
        assert forall|c: ClipV, rest: Seq<char>|
            #![trigger spec_enc_clip(c).add(rest)]
            s@.skip(p0) == spec_enc_clip(c) + rest implies clip@ == c && *pos as int == p0
            + spec_enc_clip(c).len() by {
            assert(text@ == c.position);
            assert(*pos as int == p2 + spec_enc_str(c.position).len());
            assert(p2 == p1 + spec_enc_u64(c.end as nat).len());
            assert(p1 == p0 + spec_enc_u64(c.start as nat).len());
        }
    }
    Option::Some(clip)
}

/// Appends a clip-list field.
pub fn push_clip_list(out: &mut Vec<char>, l: &Clips)
    ensures
        final(out)@ == old(out)@ + spec_enc_clips(l.deep_view()),
{
    let n = l.len();
    push_u64(out, n as u64);
    let ghost base = out@;
    let mut i: usize = 0;
    proof {
        assert(spec_enc_clip_list(l.deep_view().take(0)) =~= Seq::<char>::empty());
        assert(out@ =~= base + spec_enc_clip_list(l.deep_view().take(0)));
        assert(l.deep_view().len() == n as int);
    }
    while i < n
        invariant
            i <= n,
            n == l@.len(),
            l.deep_view().len() == n as int,
            out@ == base + spec_enc_clip_list(l.deep_view().take(i as int)),
        decreases n - i,
    {
        push_clip(out, &l[i]);
        proof {
            let dv = l.deep_view();
            assert(dv[i as int] == l@[i as int]@);
            assert(dv.take(i + 1 as int).drop_last() =~= dv.take(i as int));
            assert(dv.take(i + 1 as int).last() == dv[i as int]);
            assert(out@ =~= base + spec_enc_clip_list(dv.take(i + 1 as int)));
        }
        i += 1;
    }
    proof {
        assert(l.deep_view().take(n as int) =~= l.deep_view());
    }
}

/// The valid-list hypothesis for clips at a position.
pub open spec fn clip_body_at(
    s: Seq<char>,
    p: int,
    cnt: int,
    xs: Seq<ClipV>,
    rest: Seq<char>,
) -> bool {
    s.skip(p) == spec_enc_clip_list(xs) + rest && xs.len() == cnt
}

/// Reads a clip-list field at `pos`.
#[verifier::rlimit(60)]
pub fn take_clip_list(s: &Vec<char>, pos: &mut usize) -> (r: Option<Clips>)
    requires
        *old(pos) <= s@.len(),
    ensures
        match r {
            Option::Some(ref v) => *old(pos) < *final(pos) <= s@.len() && s@.subrange(
                *old(pos) as int,
                *final(pos) as int,
            ) == spec_enc_clips(v.deep_view()),
            Option::None => *final(pos) == *old(pos),
        },
        forall|xs: Seq<ClipV>, rest: Seq<char>|
            #![trigger spec_enc_clips(xs).add(rest)]
            s@.skip(*old(pos) as int) == spec_enc_clips(xs) + rest ==> (r matches Option::Some(v)
                && v.deep_view() == xs && *final(pos) == *old(pos) + spec_enc_clips(xs).len()),
{
    let ghost p0 = *pos as int;
    let start = *pos;
    let slen = s.len();
    proof {
        assert forall|xs: Seq<ClipV>, rest: Seq<char>|
            #![trigger spec_enc_clips(xs).add(rest)]
            s@.skip(p0) == spec_enc_clips(xs) + rest implies xs.len() <= u64::MAX && s@.skip(p0)
            == spec_enc_u64(xs.len()) + (spec_enc_clip_list(xs) + rest) by {
            assert(spec_enc_clips(xs) + rest =~= spec_enc_u64(xs.len()) + (spec_enc_clip_list(xs)
                + rest));
            lemma_enc_clip_list_len(xs);
            assert(s@.skip(p0).len() == s@.len() - p0);
        }
    }
    let n_opt = take_u64(s, pos);
    match n_opt {
        Option::None => {
            proof {
                assert forall|xs: Seq<ClipV>, rest: Seq<char>|
                    #![trigger spec_enc_clips(xs).add(rest)]
                    s@.skip(p0) != spec_enc_clips(xs) + rest by {
                    if s@.skip(p0) == spec_enc_clips(xs) + rest {
                        let nl = xs.len() as u64;
                        assert(s@.skip(p0) == spec_enc_u64(nl as nat) + (spec_enc_clip_list(xs)
                            + rest));
                    }
                }
            }
            Option::None
        },
        Option::Some(n) => {
            let ghost pstart = *pos as int;
            proof {
                assert forall|xs: Seq<ClipV>, rest: Seq<char>|
                    #![trigger spec_enc_clips(xs).add(rest)]
                    s@.skip(p0) == spec_enc_clips(xs) + rest implies n == xs.len() && s@.skip(
                    pstart,
                ) == spec_enc_clip_list(xs) + rest by {
                    let nl = xs.len() as u64;
                    assert(s@.skip(p0) == spec_enc_u64(nl as nat) + (spec_enc_clip_list(xs)
                        + rest));
                    lemma_skip_block(
                        s@,
                        p0,
                        spec_enc_u64(xs.len()),
                        spec_enc_clip_list(xs) + rest,
                    );
                }
            }
            if n > (slen - *pos) as u64 {
                *pos = start;
                proof {
                    assert forall|xs: Seq<ClipV>, rest: Seq<char>|
                        #![trigger spec_enc_clips(xs).add(rest)]
                        s@.skip(p0) != spec_enc_clips(xs) + rest by {
                        if s@.skip(p0) == spec_enc_clips(xs) + rest {
                            lemma_enc_clip_list_len(xs);
                            assert(s@.skip(pstart).len() == s@.len() - pstart);
                        }
                    }
                }
                return Option::None;
            }
            let cnt = n as usize;
            let mut out: Clips = Vec::new();
            let mut i: usize = 0;
            let mut failed = false;
            proof {
                assert(s@.subrange(pstart, pstart) =~= Seq::<char>::empty());
                assert(out.deep_view().len() == 0);
                assert(spec_enc_clip_list(out.deep_view()) =~= Seq::<char>::empty());
                assert forall|xs: Seq<ClipV>, rest: Seq<char>|
                    #![trigger spec_enc_clip_list(xs).add(rest)]
                    clip_body_at(s@, pstart, cnt as int, xs, rest) implies out.deep_view()
                    == xs.take(0) && s@.skip(*pos as int) == spec_enc_clip_list(xs.skip(0))
                    + rest by {
                    assert(xs.take(0) =~= Seq::<ClipV>::empty());
                    assert(out.deep_view() =~= xs.take(0));
                    assert(xs.skip(0) =~= xs);
                }
            }
            while i < cnt && !failed
                invariant
                    i <= cnt,
                    0 <= pstart <= *pos as int <= s@.len(),
                    out@.len() == i as int,
                    s@.subrange(pstart, *pos as int) == spec_enc_clip_list(out.deep_view()),
                    forall|xs: Seq<ClipV>, rest: Seq<char>|
                        #![trigger spec_enc_clip_list(xs).add(rest)]
                        clip_body_at(s@, pstart, cnt as int, xs, rest) ==> out.deep_view()
                            == xs.take(i as int) && s@.skip(*pos as int) == spec_enc_clip_list(
                            xs.skip(i as int),
                        ) + rest,
                    failed ==> forall|xs: Seq<ClipV>, rest: Seq<char>|
                        #![trigger spec_enc_clip_list(xs).add(rest)]
                        !clip_body_at(s@, pstart, cnt as int, xs, rest),
                decreases cnt - i + (if failed {
                    0int
                } else {
                    1int
                }),
            {
                let ghost pcur = *pos as int;
                let ghost prev_dv = out.deep_view();
                let item = take_clip(s, pos);
                match item {
                    Option::Some(v) => {
                        out.push(v);
                        proof {
                            let dv = out.deep_view();
                            assert(dv.drop_last() =~= prev_dv);
                            assert(dv.last() == out@[i as int]@);
                            assert(s@.subrange(pstart, *pos as int) =~= s@.subrange(pstart, pcur)
                                + s@.subrange(pcur, *pos as int));
                            assert(spec_enc_clip_list(dv) == spec_enc_clip_list(prev_dv)
                                + spec_enc_clip(dv.last()));
                            assert(s@.subrange(pstart, *pos as int) =~= spec_enc_clip_list(dv));
                            assert forall|xs: Seq<ClipV>, rest: Seq<char>|
                                #![trigger spec_enc_clip_list(xs).add(rest)]
                                clip_body_at(s@, pstart, cnt as int, xs, rest) implies dv
                                == xs.take(i + 1) && s@.skip(*pos as int) == spec_enc_clip_list(
                                xs.skip(i + 1),
                            ) + rest by {
                                assert(prev_dv == xs.take(i as int));
                                assert(s@.skip(pcur) == spec_enc_clip_list(xs.skip(i as int))
                                    + rest);
                                lemma_enc_clip_list_first(xs.skip(i as int));
                                assert(xs.skip(i as int).first() == xs[i as int]);
                                assert(xs.skip(i as int).drop_first() =~= xs.skip(i + 1));
                                assert(s@.skip(pcur) =~= spec_enc_clip(xs[i as int]) + (
                                spec_enc_clip_list(xs.skip(i + 1)) + rest));
                                assert(out@[i as int]@ == xs[i as int]);
                                lemma_skip_block(
                                    s@,
                                    pcur,
                                    spec_enc_clip(xs[i as int]),
                                    spec_enc_clip_list(xs.skip(i + 1)) + rest,
                                );
                                assert(dv =~= xs.take(i + 1));
                            }
                        }
                        i += 1;
                    },
                    Option::None => {
                        proof {
                            assert forall|xs: Seq<ClipV>, rest: Seq<char>|
                                #![trigger spec_enc_clip_list(xs).add(rest)]
                                !clip_body_at(s@, pstart, cnt as int, xs, rest) by {
                                if clip_body_at(s@, pstart, cnt as int, xs, rest) {
                                    assert(s@.skip(pcur) == spec_enc_clip_list(xs.skip(i as int))
                                        + rest);
                                    assert(xs.skip(i as int).len() >= 1);
                                    lemma_enc_clip_list_first(xs.skip(i as int));
                                    assert(s@.skip(pcur) =~= spec_enc_clip(
                                        xs.skip(i as int).first(),
                                    ) + (spec_enc_clip_list(xs.skip(i as int).drop_first())
                                        + rest));
                                }
                            }
                        }
                        failed = true;
                    },
                }
            }
            if failed {
                *pos = start;
                proof {
                    assert forall|xs: Seq<ClipV>, rest: Seq<char>|
                        #![trigger spec_enc_clips(xs).add(rest)]
                        s@.skip(p0) != spec_enc_clips(xs) + rest by {
                        if s@.skip(p0) == spec_enc_clips(xs) + rest {
                            assert(s@.skip(pstart) == spec_enc_clip_list(xs) + rest);
                            assert(clip_body_at(s@, pstart, cnt as int, xs, rest));
                            assert(spec_enc_clip_list(xs) + rest == spec_enc_clip_list(xs).add(
                                rest,
                            ));
                        }
                    }
                }
                return Option::None;
            }
            proof {
                assert(s@.subrange(p0, *pos as int) =~= s@.subrange(p0, pstart) + s@.subrange(
                    pstart,
                    *pos as int,
                ));
                assert(s@.subrange(p0, pstart) == spec_enc_u64(n as nat));
                assert(out.deep_view().len() == n as nat);
                assert(s@.subrange(p0, *pos as int) =~= spec_enc_clips(out.deep_view()));
                assert forall|xs: Seq<ClipV>, rest: Seq<char>|
                    #![trigger spec_enc_clips(xs).add(rest)]
                    s@.skip(p0) == spec_enc_clips(xs) + rest implies out.deep_view() == xs && *pos
                    == p0 + spec_enc_clips(xs).len() by {
                    assert(s@.skip(pstart) == spec_enc_clip_list(xs) + rest);
                    assert(clip_body_at(s@, pstart, cnt as int, xs, rest));
                    assert(spec_enc_clip_list(xs) + rest == spec_enc_clip_list(xs).add(rest));
                    assert(out.deep_view() == xs.take(cnt as int));
                    assert(xs.take(cnt as int) =~= xs);
                    assert(s@.skip(*pos as int) == spec_enc_clip_list(xs.skip(cnt as int)) + rest);
                    assert(xs.skip(cnt as int) =~= Seq::<ClipV>::empty());
                    assert(spec_enc_clip_list(Seq::<ClipV>::empty()).len() == 0);
                    assert(s@.skip(*pos as int).len() == s@.len() - *pos);
                    assert(s@.skip(pstart).len() == s@.len() - pstart);
                }
            }
            Option::Some(out)
        },
    }
}

// ---------------------------------------------------------------------------
// Record writers
// ---------------------------------------------------------------------------

/// The canonical record text of an output configuration.
pub fn output_record_text(o: &Output) -> (r: String)
    ensures
        r@ == spec_output_record(o@),
{
    let mut out: Vec<char> = Vec::new();
    out.push('o');
    proof {
        assert(out@ =~= seq!['o']);
    }
    push_str_field(&mut out, o.name.as_str());
    push_opt_str(&mut out, &o.build_command);
    push_opt_bool(&mut out, &o.cache);
    push_opt_bool(&mut out, &o.debug);
    push_str_field(&mut out, o.output_command.as_str());
    push_str_field(&mut out, o.output_buffer.as_str());
    proof {
        assert(out@ =~= spec_output_record(o@));
    }
    chars_to_string(out)
}

/// The canonical record text of a transform configuration.
pub fn sox_record_text(o: &Sox) -> (r: String)
    ensures
        r@ == spec_sox_record(o@),
{
    let mut out: Vec<char> = Vec::new();
    out.push('s');
    proof {
        assert(out@ =~= seq!['s']);
    }
    push_u64(&mut out, o.bit_depth as u64);
    push_u64(&mut out, o.sample_rate as u64);
    push_u64(&mut out, o.channels as u64);
    push_str_field(&mut out, o.encoding.as_str());
    push_opt_str(&mut out, &o.other_options_pre);
    push_opt_str(&mut out, &o.other_options_post);
    push_opt_str(&mut out, &o.tempo);
    proof {
        assert(out@ =~= spec_sox_record(o@));
    }
    chars_to_string(out)
}

/// The canonical record text of an acquisition configuration.
pub fn build_record_text(o: &Build) -> (r: String)
    ensures
        r@ == spec_build_record(o@),
{
    let mut out: Vec<char> = Vec::new();
    out.push('b');
    proof {
        assert(out@ =~= seq!['b']);
    }
    push_str_field(&mut out, o.build_command.as_str());
    push_str_list(&mut out, &o.http_sources);
    push_str_list(&mut out, &o.git_sources);
    push_opt_bool(&mut out, &o.git_update);
    push_opt_bool(&mut out, &o.always_rebuild);
    push_bool(&mut out, o.copy_me);
    proof {
        assert(out@ =~= spec_build_record(o@));
    }
    chars_to_string(out)
}

/// The canonical record text of an edit configuration.
pub fn clip_record_text(o: &ClipsOpt) -> (r: String)
    ensures
        r@ == spec_clip_record(o@),
{
    let mut out: Vec<char> = Vec::new();
    out.push('c');
    proof {
        assert(out@ =~= seq!['c']);
    }
    match &o.clip {
        Option::None => {
            out.push('-');
            proof {
                assert(out@ =~= spec_clip_record(o@));
            }
        },
        Option::Some(l) => {
            out.push('+');
            push_clip_list(&mut out, l);
            proof {
                assert(out@ =~= spec_clip_record(o@));
            }
        },
    }
    chars_to_string(out)
}

// ---------------------------------------------------------------------------
// Record parsers
// ---------------------------------------------------------------------------

/// Parses an output-stage record.  Succeeds exactly on canonical record
/// texts; any other content (a corrupted record) yields `None`.
#[verifier::rlimit(60)]
pub fn parse_output_record(s: &str) -> (r: Option<Output>)
    ensures
        r matches Option::Some(o) ==> s@ == spec_output_record(o@),
        forall|v: OutputV| #[trigger]
            spec_output_record(v) == s@ ==> (r matches Option::Some(o) && o@ == v),
{
    let cs = str_chars(s);
    let mut pos: usize = 0;
    proof {
        assert(cs@.skip(0) =~= cs@);
        assert forall|v: OutputV| #[trigger] spec_output_record(v) == s@ implies cs@.skip(0)
            == seq!['o'] + (spec_enc_str(v.name) + (spec_enc_opt_str(v.build_command) + (
        spec_enc_opt_bool(v.cache) + (spec_enc_opt_bool(v.debug) + (spec_enc_str(v.output_command)
            + spec_enc_str(v.output_buffer)))))) by {
            assert(spec_output_record(v) =~= seq!['o'] + (spec_enc_str(v.name) + (
            spec_enc_opt_str(v.build_command) + (spec_enc_opt_bool(v.cache) + (spec_enc_opt_bool(
                v.debug,
            ) + (spec_enc_str(v.output_command) + spec_enc_str(v.output_buffer)))))));
        }
    }
    if !take_char(&cs, &mut pos, 'o') {
        proof {
            assert forall|v: OutputV| #[trigger] spec_output_record(v) != s@ by {
                if spec_output_record(v) == s@ {
                    lemma_skip_block(
                        cs@,
                        0,
                        seq!['o'],
                        spec_enc_str(v.name) + (spec_enc_opt_str(v.build_command) + (
                        spec_enc_opt_bool(v.cache) + (spec_enc_opt_bool(v.debug) + (spec_enc_str(
                            v.output_command,
                        ) + spec_enc_str(v.output_buffer))))),
                    );
                }
            }
        }
        return Option::None;
    }
    let ghost p1 = pos as int;
    proof {
        assert forall|v: OutputV| #[trigger] spec_output_record(v) == s@ implies cs@.skip(p1)
            == spec_enc_str(v.name) + (spec_enc_opt_str(v.build_command) + (spec_enc_opt_bool(
            v.cache,
        ) + (spec_enc_opt_bool(v.debug) + (spec_enc_str(v.output_command) + spec_enc_str(
            v.output_buffer,
        ))))) by {
            lemma_skip_block(
                cs@,
                0,
                seq!['o'],
                spec_enc_str(v.name) + (spec_enc_opt_str(v.build_command) + (spec_enc_opt_bool(
                    v.cache,
                ) + (spec_enc_opt_bool(v.debug) + (spec_enc_str(v.output_command) + spec_enc_str(
                    v.output_buffer,
                ))))),
            );
        }
    }
    let name = match take_str(&cs, &mut pos) {
        Option::Some(x) => x,
        Option::None => {
            proof {
                assert forall|v: OutputV| #[trigger] spec_output_record(v) != s@ by {}
            }
            return Option::None;
        },
    };
    let ghost p2 = pos as int;
    proof {
        assert forall|v: OutputV| #[trigger] spec_output_record(v) == s@ implies name@ == v.name
            && cs@.skip(p2) == spec_enc_opt_str(v.build_command) + (spec_enc_opt_bool(v.cache) + (
        spec_enc_opt_bool(v.debug) + (spec_enc_str(v.output_command) + spec_enc_str(
            v.output_buffer,
        )))) by {
            lemma_skip_block(
                cs@,
                p1,
                spec_enc_str(v.name),
                spec_enc_opt_str(v.build_command) + (spec_enc_opt_bool(v.cache) + (
                spec_enc_opt_bool(v.debug) + (spec_enc_str(v.output_command) + spec_enc_str(
                    v.output_buffer,
                )))),
            );
        }
    }
    let build_command = match take_opt_str(&cs, &mut pos) {
        Option::Some(x) => x,
        Option::None => {
            proof {
                assert forall|v: OutputV| #[trigger] spec_output_record(v) != s@ by {}
            }
            return Option::None;
        },
    };
    let ghost p3 = pos as int;
    proof {
        assert forall|v: OutputV| #[trigger] spec_output_record(v) == s@ implies opt_str_view(
            build_command,
        ) == v.build_command && cs@.skip(p3) == spec_enc_opt_bool(v.cache) + (spec_enc_opt_bool(
            v.debug,
        ) + (spec_enc_str(v.output_command) + spec_enc_str(v.output_buffer))) by {
            lemma_skip_block(
                cs@,
                p2,
                spec_enc_opt_str(v.build_command),
                spec_enc_opt_bool(v.cache) + (spec_enc_opt_bool(v.debug) + (spec_enc_str(
                    v.output_command,
                ) + spec_enc_str(v.output_buffer))),
            );
        }
    }
    let cache = match take_opt_bool(&cs, &mut pos) {
        Option::Some(x) => x,
        Option::None => {
            proof {
                assert forall|v: OutputV| #[trigger] spec_output_record(v) != s@ by {}
            }
            return Option::None;
        },
    };
    let ghost p4 = pos as int;
    proof {
        assert forall|v: OutputV| #[trigger] spec_output_record(v) == s@ implies cache == v.cache
            && cs@.skip(p4) == spec_enc_opt_bool(v.debug) + (spec_enc_str(v.output_command)
            + spec_enc_str(v.output_buffer)) by {
            lemma_skip_block(
                cs@,
                p3,
                spec_enc_opt_bool(v.cache),
                spec_enc_opt_bool(v.debug) + (spec_enc_str(v.output_command) + spec_enc_str(
                    v.output_buffer,
                )),
            );
        }
    }
    let debug = match take_opt_bool(&cs, &mut pos) {
        Option::Some(x) => x,
        Option::None => {
            proof {
                assert forall|v: OutputV| #[trigger] spec_output_record(v) != s@ by {}
            }
            return Option::None;
        },
    };
    let ghost p5 = pos as int;
    proof {
        assert forall|v: OutputV| #[trigger] spec_output_record(v) == s@ implies debug == v.debug
            && cs@.skip(p5) == spec_enc_str(v.output_command) + spec_enc_str(v.output_buffer) by {
            lemma_skip_block(
                cs@,
                p4,
                spec_enc_opt_bool(v.debug),
                spec_enc_str(v.output_command) + spec_enc_str(v.output_buffer),
            );
        }
    }
    let output_command = match take_str(&cs, &mut pos) {
        Option::Some(x) => x,
        Option::None => {
            proof {
                assert forall|v: OutputV| #[trigger] spec_output_record(v) != s@ by {}
            }
            return Option::None;
        },
    };
    let ghost p6 = pos as int;
    proof {
        assert forall|v: OutputV| #[trigger] spec_output_record(v) == s@ implies output_command@
            == v.output_command && cs@.skip(p6) == spec_enc_str(v.output_buffer)
            + Seq::<char>::empty() by {
            lemma_skip_block(
                cs@,
                p5,
                spec_enc_str(v.output_command),
                spec_enc_str(v.output_buffer),
            );
            assert(spec_enc_str(v.output_buffer) =~= spec_enc_str(v.output_buffer)
                + Seq::<char>::empty());
        }
    }
    let output_buffer = match take_str(&cs, &mut pos) {
        Option::Some(x) => x,
        Option::None => {
            proof {
                assert forall|v: OutputV| #[trigger] spec_output_record(v) != s@ by {}
            }
            return Option::None;
        },
    };
    let ghost p7 = pos as int;
    proof {
        assert forall|v: OutputV| #[trigger] spec_output_record(v) == s@ implies output_buffer@
            == v.output_buffer && cs@.skip(p7) == Seq::<char>::empty() by {
            lemma_skip_block(
                cs@,
                p6,
                spec_enc_str(v.output_buffer),
                Seq::<char>::empty(),
            );
        }
    }
    if pos != cs.len() {
        proof {
            assert forall|v: OutputV| #[trigger] spec_output_record(v) != s@ by {
                if spec_output_record(v) == s@ {
                    assert(cs@.skip(p7).len() == cs@.len() - p7);
                }
            }
        }
        return Option::None;
    }
    let out = Output { name, build_command, cache, debug, output_command, output_buffer };
    proof {
        assert(cs@ =~= cs@.subrange(0, p1) + cs@.subrange(p1, p2) + cs@.subrange(p2, p3)
            + cs@.subrange(p3, p4) + cs@.subrange(p4, p5) + cs@.subrange(p5, p6) + cs@.subrange(
            p6,
            p7,
        ));
        assert(cs@.subrange(0, p1) =~= seq!['o']);
        assert(cs@ =~= spec_output_record(out@));
    }
    Option::Some(out)
}

/// Parses a transform-stage record.  Succeeds exactly on canonical record
/// texts; any other content yields `None`.
#[verifier::rlimit(60)]
pub fn parse_sox_record(s: &str) -> (r: Option<Sox>)
    ensures
        r matches Option::Some(o) ==> s@ == spec_sox_record(o@),
        forall|v: SoxV| #[trigger]
            spec_sox_record(v) == s@ ==> (r matches Option::Some(o) && o@ == v),
{
    let cs = str_chars(s);
    let mut pos: usize = 0;
    proof {
        assert(cs@.skip(0) =~= cs@);
        assert forall|v: SoxV| #[trigger] spec_sox_record(v) == s@ implies cs@.skip(0) == seq!['s']
            + (spec_enc_u64(v.bit_depth as nat) + (spec_enc_u64(v.sample_rate as nat) + (
        spec_enc_u64(v.channels as nat) + (spec_enc_str(v.encoding) + (spec_enc_opt_str(
            v.other_options_pre,
        ) + (spec_enc_opt_str(v.other_options_post) + spec_enc_opt_str(v.tempo))))))) by {
            assert(spec_sox_record(v) =~= seq!['s'] + (spec_enc_u64(v.bit_depth as nat) + (
            spec_enc_u64(v.sample_rate as nat) + (spec_enc_u64(v.channels as nat) + (spec_enc_str(
                v.encoding,
            ) + (spec_enc_opt_str(v.other_options_pre) + (spec_enc_opt_str(v.other_options_post)
                + spec_enc_opt_str(v.tempo))))))));
        }
    }
    if !take_char(&cs, &mut pos, 's') {
        proof {
            assert forall|v: SoxV| #[trigger] spec_sox_record(v) != s@ by {
                if spec_sox_record(v) == s@ {
                    lemma_skip_block(
                        cs@,
                        0,
                        seq!['s'],
                        spec_enc_u64(v.bit_depth as nat) + (spec_enc_u64(v.sample_rate as nat) + (
                        spec_enc_u64(v.channels as nat) + (spec_enc_str(v.encoding) + (
                        spec_enc_opt_str(v.other_options_pre) + (spec_enc_opt_str(
                            v.other_options_post,
                        ) + spec_enc_opt_str(v.tempo)))))),
                    );
                }
            }
        }
        return Option::None;
    }
    let ghost p1 = pos as int;
    proof {
        assert forall|v: SoxV| #[trigger] spec_sox_record(v) == s@ implies cs@.skip(p1)
            == spec_enc_u64(((v.bit_depth as u64) as nat)) + (spec_enc_u64(v.sample_rate as nat)
            + (spec_enc_u64(v.channels as nat) + (spec_enc_str(v.encoding) + (spec_enc_opt_str(
            v.other_options_pre,
        ) + (spec_enc_opt_str(v.other_options_post) + spec_enc_opt_str(v.tempo)))))) by {
            lemma_skip_block(
                cs@,
                0,
                seq!['s'],
                spec_enc_u64(v.bit_depth as nat) + (spec_enc_u64(v.sample_rate as nat) + (
                spec_enc_u64(v.channels as nat) + (spec_enc_str(v.encoding) + (spec_enc_opt_str(
                    v.other_options_pre,
                ) + (spec_enc_opt_str(v.other_options_post) + spec_enc_opt_str(v.tempo)))))),
            );
        }
    }
    let bit_depth_w = match take_u64(&cs, &mut pos) {
        Option::Some(x) => x,
        Option::None => {
            proof {
                assert forall|v: SoxV| #[trigger] spec_sox_record(v) != s@ by {}
            }
            return Option::None;
        },
    };
    let ghost p2 = pos as int;
    proof {
        assert forall|v: SoxV| #[trigger] spec_sox_record(v) == s@ implies bit_depth_w
            == v.bit_depth && cs@.skip(p2) == spec_enc_u64(((v.sample_rate as u64) as nat)) + (
        spec_enc_u64(v.channels as nat) + (spec_enc_str(v.encoding) + (spec_enc_opt_str(
            v.other_options_pre,
        ) + (spec_enc_opt_str(v.other_options_post) + spec_enc_opt_str(v.tempo))))) by {
            lemma_skip_block(
                cs@,
                p1,
                spec_enc_u64(v.bit_depth as nat),
                spec_enc_u64(v.sample_rate as nat) + (spec_enc_u64(v.channels as nat) + (
                spec_enc_str(v.encoding) + (spec_enc_opt_str(v.other_options_pre) + (
                spec_enc_opt_str(v.other_options_post) + spec_enc_opt_str(v.tempo))))),
            );
        }
    }
    let sample_rate_w = match take_u64(&cs, &mut pos) {
        Option::Some(x) => x,
        Option::None => {
            proof {
                assert forall|v: SoxV| #[trigger] spec_sox_record(v) != s@ by {}
            }
            return Option::None;
        },
    };
    let ghost p3 = pos as int;
    proof {
        assert forall|v: SoxV| #[trigger] spec_sox_record(v) == s@ implies sample_rate_w
            == v.sample_rate && cs@.skip(p3) == spec_enc_u64(((v.channels as u64) as nat)) + (
        spec_enc_str(v.encoding) + (spec_enc_opt_str(v.other_options_pre) + (spec_enc_opt_str(
            v.other_options_post,
        ) + spec_enc_opt_str(v.tempo)))) by {
            lemma_skip_block(
                cs@,
                p2,
                spec_enc_u64(v.sample_rate as nat),
                spec_enc_u64(v.channels as nat) + (spec_enc_str(v.encoding) + (spec_enc_opt_str(
                    v.other_options_pre,
                ) + (spec_enc_opt_str(v.other_options_post) + spec_enc_opt_str(v.tempo)))),
            );
        }
    }
    let channels_w = match take_u64(&cs, &mut pos) {
        Option::Some(x) => x,
        Option::None => {
            proof {
                assert forall|v: SoxV| #[trigger] spec_sox_record(v) != s@ by {}
            }
            return Option::None;
        },
    };
    let ghost p4 = pos as int;
    proof {
        assert forall|v: SoxV| #[trigger] spec_sox_record(v) == s@ implies channels_w == v.channels
            && cs@.skip(p4) == spec_enc_str(v.encoding) + (spec_enc_opt_str(v.other_options_pre)
            + (spec_enc_opt_str(v.other_options_post) + spec_enc_opt_str(v.tempo))) by {
            lemma_skip_block(
                cs@,
                p3,
                spec_enc_u64(v.channels as nat),
                spec_enc_str(v.encoding) + (spec_enc_opt_str(v.other_options_pre) + (
                spec_enc_opt_str(v.other_options_post) + spec_enc_opt_str(v.tempo))),
            );
        }
    }
    let encoding = match take_str(&cs, &mut pos) {
        Option::Some(x) => x,
        Option::None => {
            proof {
                assert forall|v: SoxV| #[trigger] spec_sox_record(v) != s@ by {}
            }
            return Option::None;
        },
    };
    let ghost p5 = pos as int;
    proof {
        assert forall|v: SoxV| #[trigger] spec_sox_record(v) == s@ implies encoding@ == v.encoding
            && cs@.skip(p5) == spec_enc_opt_str(v.other_options_pre) + (spec_enc_opt_str(
            v.other_options_post,
        ) + spec_enc_opt_str(v.tempo)) by {
            lemma_skip_block(
                cs@,
                p4,
                spec_enc_str(v.encoding),
                spec_enc_opt_str(v.other_options_pre) + (spec_enc_opt_str(v.other_options_post)
                    + spec_enc_opt_str(v.tempo)),
            );
        }
    }
    let other_options_pre = match take_opt_str(&cs, &mut pos) {
        Option::Some(x) => x,
        Option::None => {
            proof {
                assert forall|v: SoxV| #[trigger] spec_sox_record(v) != s@ by {}
            }
            return Option::None;
        },
    };
    let ghost p6 = pos as int;
    proof {
        assert forall|v: SoxV| #[trigger] spec_sox_record(v) == s@ implies opt_str_view(
            other_options_pre,
        ) == v.other_options_pre && cs@.skip(p6) == spec_enc_opt_str(v.other_options_post)
            + spec_enc_opt_str(v.tempo) by {
            lemma_skip_block(
                cs@,
                p5,
                spec_enc_opt_str(v.other_options_pre),
                spec_enc_opt_str(v.other_options_post) + spec_enc_opt_str(v.tempo),
            );
        }
    }
    let other_options_post = match take_opt_str(&cs, &mut pos) {
        Option::Some(x) => x,
        Option::None => {
            proof {
                assert forall|v: SoxV| #[trigger] spec_sox_record(v) != s@ by {}
            }
            return Option::None;
        },
    };
    let ghost p7 = pos as int;
    proof {
        assert forall|v: SoxV| #[trigger] spec_sox_record(v) == s@ implies opt_str_view(
            other_options_post,
        ) == v.other_options_post && cs@.skip(p7) == spec_enc_opt_str(v.tempo)
            + Seq::<char>::empty() by {
            lemma_skip_block(
                cs@,
                p6,
                spec_enc_opt_str(v.other_options_post),
                spec_enc_opt_str(v.tempo),
            );
            assert(spec_enc_opt_str(v.tempo) =~= spec_enc_opt_str(v.tempo) + Seq::<char>::empty());
        }
    }
    let tempo = match take_opt_str(&cs, &mut pos) {
        Option::Some(x) => x,
        Option::None => {
            proof {
                assert forall|v: SoxV| #[trigger] spec_sox_record(v) != s@ by {}
            }
            return Option::None;
        },
    };
    let ghost p8 = pos as int;
    proof {
        assert forall|v: SoxV| #[trigger] spec_sox_record(v) == s@ implies opt_str_view(tempo)
            == v.tempo && cs@.skip(p8) == Seq::<char>::empty() by {
            lemma_skip_block(cs@, p7, spec_enc_opt_str(v.tempo), Seq::<char>::empty());
        }
    }
    if pos != cs.len() {
        proof {
            assert forall|v: SoxV| #[trigger] spec_sox_record(v) != s@ by {
                if spec_sox_record(v) == s@ {
                    assert(cs@.skip(p8).len() == cs@.len() - p8);
                }
            }
        }
        return Option::None;
    }
    if bit_depth_w > u32::MAX as u64 || sample_rate_w > u32::MAX as u64 || channels_w
        > u32::MAX as u64 {
        proof {
            assert forall|v: SoxV| #[trigger] spec_sox_record(v) != s@ by {}
        }
        return Option::None;
    }
    let out = Sox {
        bit_depth: bit_depth_w as u32,
        sample_rate: sample_rate_w as u32,
        channels: channels_w as u32,
        encoding,
        other_options_pre,
        other_options_post,
        tempo,
    };
    proof {
        assert(cs@ =~= cs@.subrange(0, p1) + cs@.subrange(p1, p2) + cs@.subrange(p2, p3)
            + cs@.subrange(p3, p4) + cs@.subrange(p4, p5) + cs@.subrange(p5, p6) + cs@.subrange(
            p6,
            p7,
        ) + cs@.subrange(p7, p8));
        assert(cs@.subrange(0, p1) =~= seq!['s']);
        assert(cs@ =~= spec_sox_record(out@));
    }
    Option::Some(out)
}

/// Parses an acquisition-stage record.  Succeeds exactly on canonical record
/// texts; any other content yields `None`.
#[verifier::rlimit(60)]
pub fn parse_build_record(s: &str) -> (r: Option<Build>)
    ensures
        r matches Option::Some(o) ==> s@ == spec_build_record(o@),
        forall|v: BuildV| #[trigger]
            spec_build_record(v) == s@ ==> (r matches Option::Some(o) && o@ == v),
{
    let cs = str_chars(s);
    let mut pos: usize = 0;
    proof {
        assert(cs@.skip(0) =~= cs@);
        assert forall|v: BuildV| #[trigger] spec_build_record(v) == s@ implies cs@.skip(0)
            == seq!['b'] + (spec_enc_str(v.build_command) + (spec_enc_strs(v.http_sources) + (
        spec_enc_strs(v.git_sources) + (spec_enc_opt_bool(v.git_update) + (spec_enc_opt_bool(
            v.always_rebuild,
        ) + spec_enc_bool(v.copy_me)))))) by {
            assert(spec_build_record(v) =~= seq!['b'] + (spec_enc_str(v.build_command) + (
            spec_enc_strs(v.http_sources) + (spec_enc_strs(v.git_sources) + (spec_enc_opt_bool(
                v.git_update,
            ) + (spec_enc_opt_bool(v.always_rebuild) + spec_enc_bool(v.copy_me)))))));
        }
    }
    if !take_char(&cs, &mut pos, 'b') {
        proof {
            assert forall|v: BuildV| #[trigger] spec_build_record(v) != s@ by {
                if spec_build_record(v) == s@ {
                    lemma_skip_block(
                        cs@,
                        0,
                        seq!['b'],
                        spec_enc_str(v.build_command) + (spec_enc_strs(v.http_sources) + (
                        spec_enc_strs(v.git_sources) + (spec_enc_opt_bool(v.git_update) + (
                        spec_enc_opt_bool(v.always_rebuild) + spec_enc_bool(v.copy_me))))),
                    );
                }
            }
        }
        return Option::None;
    }
    let ghost p1 = pos as int;
    proof {
        assert forall|v: BuildV| #[trigger] spec_build_record(v) == s@ implies cs@.skip(p1)
            == spec_enc_str(v.build_command) + (spec_enc_strs(v.http_sources) + (spec_enc_strs(
            v.git_sources,
        ) + (spec_enc_opt_bool(v.git_update) + (spec_enc_opt_bool(v.always_rebuild)
            + spec_enc_bool(v.copy_me))))) by {
            lemma_skip_block(
                cs@,
                0,
                seq!['b'],
                spec_enc_str(v.build_command) + (spec_enc_strs(v.http_sources) + (spec_enc_strs(
                    v.git_sources,
                ) + (spec_enc_opt_bool(v.git_update) + (spec_enc_opt_bool(v.always_rebuild)
                    + spec_enc_bool(v.copy_me))))),
            );
        }
    }
    let build_command = match take_str(&cs, &mut pos) {
        Option::Some(x) => x,
        Option::None => {
            proof {
                assert forall|v: BuildV| #[trigger] spec_build_record(v) != s@ by {}
            }
            return Option::None;
        },
    };
    let ghost p2 = pos as int;
    proof {
        assert forall|v: BuildV| #[trigger] spec_build_record(v) == s@ implies build_command@
            == v.build_command && cs@.skip(p2) == spec_enc_strs(v.http_sources) + (spec_enc_strs(
            v.git_sources,
        ) + (spec_enc_opt_bool(v.git_update) + (spec_enc_opt_bool(v.always_rebuild)
            + spec_enc_bool(v.copy_me)))) by {
            lemma_skip_block(
                cs@,
                p1,
                spec_enc_str(v.build_command),
                spec_enc_strs(v.http_sources) + (spec_enc_strs(v.git_sources) + (
                spec_enc_opt_bool(v.git_update) + (spec_enc_opt_bool(v.always_rebuild)
                    + spec_enc_bool(v.copy_me)))),
            );
        }
    }
    let http_sources = match take_str_list(&cs, &mut pos) {
        Option::Some(x) => x,
        Option::None => {
            proof {
                assert forall|v: BuildV| #[trigger] spec_build_record(v) != s@ by {}
            }
            return Option::None;
        },
    };
    let ghost p3 = pos as int;
    proof {
        assert forall|v: BuildV| #[trigger] spec_build_record(v) == s@ implies
            http_sources.deep_view() == v.http_sources && cs@.skip(p3) == spec_enc_strs(
            v.git_sources,
        ) + (spec_enc_opt_bool(v.git_update) + (spec_enc_opt_bool(v.always_rebuild)
            + spec_enc_bool(v.copy_me))) by {
            lemma_skip_block(
                cs@,
                p2,
                spec_enc_strs(v.http_sources),
                spec_enc_strs(v.git_sources) + (spec_enc_opt_bool(v.git_update) + (
                spec_enc_opt_bool(v.always_rebuild) + spec_enc_bool(v.copy_me))),
            );
        }
    }
    let git_sources = match take_str_list(&cs, &mut pos) {
        Option::Some(x) => x,
        Option::None => {
            proof {
                assert forall|v: BuildV| #[trigger] spec_build_record(v) != s@ by {}
            }
            return Option::None;
        },
    };
    let ghost p4 = pos as int;
    proof {
        assert forall|v: BuildV| #[trigger] spec_build_record(v) == s@ implies
            git_sources.deep_view() == v.git_sources && cs@.skip(p4) == spec_enc_opt_bool(
            v.git_update,
        ) + (spec_enc_opt_bool(v.always_rebuild) + spec_enc_bool(v.copy_me)) by {
            lemma_skip_block(
                cs@,
                p3,
                spec_enc_strs(v.git_sources),
                spec_enc_opt_bool(v.git_update) + (spec_enc_opt_bool(v.always_rebuild)
                    + spec_enc_bool(v.copy_me)),
            );
        }
    }
    let git_update = match take_opt_bool(&cs, &mut pos) {
        Option::Some(x) => x,
        Option::None => {
            proof {
                assert forall|v: BuildV| #[trigger] spec_build_record(v) != s@ by {}
            }
            return Option::None;
        },
    };
    let ghost p5 = pos as int;
    proof {
        assert forall|v: BuildV| #[trigger] spec_build_record(v) == s@ implies git_update
            == v.git_update && cs@.skip(p5) == spec_enc_opt_bool(v.always_rebuild) + spec_enc_bool(
            v.copy_me,
        ) by {
            lemma_skip_block(
                cs@,
                p4,
                spec_enc_opt_bool(v.git_update),
                spec_enc_opt_bool(v.always_rebuild) + spec_enc_bool(v.copy_me),
            );
        }
    }
    let always_rebuild = match take_opt_bool(&cs, &mut pos) {
        Option::Some(x) => x,
        Option::None => {
            proof {
                assert forall|v: BuildV| #[trigger] spec_build_record(v) != s@ by {}
            }
            return Option::None;
        },
    };
    let ghost p6 = pos as int;
    proof {
        assert forall|v: BuildV| #[trigger] spec_build_record(v) == s@ implies always_rebuild
            == v.always_rebuild && cs@.skip(p6) == spec_enc_bool(v.copy_me)
            + Seq::<char>::empty() by {
            lemma_skip_block(
                cs@,
                p5,
                spec_enc_opt_bool(v.always_rebuild),
                spec_enc_bool(v.copy_me),
            );
            assert(spec_enc_bool(v.copy_me) =~= spec_enc_bool(v.copy_me) + Seq::<char>::empty());
        }
    }
    let copy_me = match take_bool(&cs, &mut pos) {
        Option::Some(x) => x,
        Option::None => {
            proof {
                assert forall|v: BuildV| #[trigger] spec_build_record(v) != s@ by {}
            }
            return Option::None;
        },
    };
    let ghost p7 = pos as int;
    proof {
        assert forall|v: BuildV| #[trigger] spec_build_record(v) == s@ implies copy_me == v.copy_me
            && cs@.skip(p7) == Seq::<char>::empty() by {
            lemma_skip_block(cs@, p6, spec_enc_bool(v.copy_me), Seq::<char>::empty());
        }
    }
    if pos != cs.len() {
        proof {
            assert forall|v: BuildV| #[trigger] spec_build_record(v) != s@ by {
                if spec_build_record(v) == s@ {
                    assert(cs@.skip(p7).len() == cs@.len() - p7);
                }
            }
        }
        return Option::None;
    }
    let out = Build { build_command, http_sources, git_sources, git_update, always_rebuild, copy_me };
    proof {
        assert(cs@ =~= cs@.subrange(0, p1) + cs@.subrange(p1, p2) + cs@.subrange(p2, p3)
            + cs@.subrange(p3, p4) + cs@.subrange(p4, p5) + cs@.subrange(p5, p6) + cs@.subrange(
            p6,
            p7,
        ));
        assert(cs@.subrange(0, p1) =~= seq!['b']);
        assert(cs@ =~= spec_build_record(out@));
    }
    Option::Some(out)
}

/// Parses an edit-stage record.  Succeeds exactly on canonical record texts;
/// any other content yields `None`.
#[verifier::rlimit(60)]
pub fn parse_clip_record(s: &str) -> (r: Option<ClipsOpt>)
    ensures
        r matches Option::Some(o) ==> s@ == spec_clip_record(o@),
        forall|v: ClipsOptV| #[trigger]
            spec_clip_record(v) == s@ ==> (r matches Option::Some(o) && o@ == v),
{
    let cs = str_chars(s);
    let mut pos: usize = 0;
    proof {
        assert(cs@.skip(0) =~= cs@);
        assert forall|v: ClipsOptV| #[trigger] spec_clip_record(v) == s@ implies cs@.skip(0)
            == seq!['c'] + (match v.clip {
            Option::None => seq!['-'],
            Option::Some(l) => seq!['+'] + spec_enc_clips(l),
        }) by {}
    }
    if !take_char(&cs, &mut pos, 'c') {
        proof {
            assert forall|v: ClipsOptV| #[trigger] spec_clip_record(v) != s@ by {
                if spec_clip_record(v) == s@ {
                    lemma_skip_block(
                        cs@,
                        0,
                        seq!['c'],
                        match v.clip {
                            Option::None => seq!['-'],
                            Option::Some(l) => seq!['+'] + spec_enc_clips(l),
                        },
                    );
                }
            }
        }
        return Option::None;
    }
    let ghost p1 = pos as int;
    proof {
        assert forall|v: ClipsOptV| #[trigger] spec_clip_record(v) == s@ implies cs@.skip(p1)
            == (match v.clip {
            Option::None => seq!['-'],
            Option::Some(l) => seq!['+'] + spec_enc_clips(l),
        }) by {
            lemma_skip_block(
                cs@,
                0,
                seq!['c'],
                match v.clip {
                    Option::None => seq!['-'],
                    Option::Some(l) => seq!['+'] + spec_enc_clips(l),
                },
            );
        }
    }
    if take_char(&cs, &mut pos, '-') {
        if pos != cs.len() {
            proof {
                assert forall|v: ClipsOptV| #[trigger] spec_clip_record(v) != s@ by {
                    if spec_clip_record(v) == s@ {
                        match v.clip {
                            Option::None => {
                                assert(cs@.skip(p1).len() == cs@.len() - p1);
                            },
                            Option::Some(l) => {
                                assert(cs@.skip(p1)[0] == '+');
                                assert(cs@[p1] == '-');
                            },
                        }
                    }
                }
            }
            return Option::None;
        }
        let out = ClipsOpt { clip: Option::None };
        proof {
            assert forall|v: ClipsOptV| #[trigger] spec_clip_record(v) == s@ implies out@ == v by {
                match v.clip {
                    Option::None => {},
                    Option::Some(l) => {
                        assert(cs@.skip(p1)[0] == '+');
                        assert(cs@[p1] == '-');
                    },
                }
            }
            assert(cs@.skip(p1).len() == cs@.len() - p1);
            assert(cs@ =~= seq!['c'] + seq!['-']);
            assert(cs@ =~= spec_clip_record(out@));
        }
        return Option::Some(out);
    }
    if !take_char(&cs, &mut pos, '+') {
        proof {
            assert forall|v: ClipsOptV| #[trigger] spec_clip_record(v) != s@ by {
                if spec_clip_record(v) == s@ {
                    match v.clip {
                        Option::None => {
                            assert(cs@.skip(p1)[0] == '-');
                            assert(p1 < cs@.len());
                        },
                        Option::Some(l) => {
                            assert(cs@.skip(p1)[0] == '+');
                            assert(p1 < cs@.len());
                        },
                    }
                }
            }
        }
        return Option::None;
    }
    let ghost p2 = pos as int;
    proof {
        assert forall|v: ClipsOptV| #[trigger] spec_clip_record(v) == s@ implies (match v.clip {
            Option::None => false,
            Option::Some(l) => cs@.skip(p2) == spec_enc_clips(l) + Seq::<char>::empty(),
        }) by {
            match v.clip {
                Option::None => {
                    assert(cs@.skip(p1)[0] == '-');
                    assert(cs@[p1] == '+');
                },
                Option::Some(l) => {
                    assert(seq!['+'] + spec_enc_clips(l) =~= seq!['+'] + (spec_enc_clips(l)
                        + Seq::<char>::empty()));
                    lemma_skip_block(cs@, p1, seq!['+'], spec_enc_clips(l) + Seq::<char>::empty());
                },
            }
        }
    }
    let clips = match take_clip_list(&cs, &mut pos) {
        Option::Some(x) => x,
        Option::None => {
            proof {
                assert forall|v: ClipsOptV| #[trigger] spec_clip_record(v) != s@ by {}
            }
            return Option::None;
        },
    };
    let ghost p3 = pos as int;
    proof {
        assert forall|v: ClipsOptV| #[trigger] spec_clip_record(v) == s@ implies (match v.clip {
            Option::None => false,
            Option::Some(l) => clips.deep_view() == l && cs@.skip(p3) == Seq::<char>::empty(),
        }) by {
            match v.clip {
                Option::None => {},
                Option::Some(l) => {
                    lemma_skip_block(cs@, p2, spec_enc_clips(l), Seq::<char>::empty());
                },
            }
        }
    }
    if pos != cs.len() {
        proof {
            assert forall|v: ClipsOptV| #[trigger] spec_clip_record(v) != s@ by {
                if spec_clip_record(v) == s@ {
                    assert(cs@.skip(p3).len() == cs@.len() - p3);
                }
            }
        }
        return Option::None;
    }
    let out = ClipsOpt { clip: Option::Some(clips) };
    proof {
        assert(cs@ =~= cs@.subrange(0, p1) + cs@.subrange(p1, p2) + cs@.subrange(p2, p3));
        assert(cs@.subrange(0, p1) =~= seq!['c']);
        assert(cs@.subrange(p1, p2) =~= seq!['+']);
        assert(cs@ =~= spec_clip_record(out@));
    }
    Option::Some(out)
}

} // verus!
