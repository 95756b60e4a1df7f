//! The edit stage's clip logic: validating clip positions, converting
//! relative clips to absolute ones, and building the selection filter
//! expression handed to the edit tool.

use vstd::prelude::*;

use crate::config::{Clip, ClipV, Clips};
use crate::scan::{escape_quotes_chars, spec_join_sep, str_eq};
use crate::text::{chars_to_string, push_dec, spec_dec, str_chars};

verus! {

/// Why a clip list is rejected.
#[derive(Clone, Copy, Debug, PartialEq, Eq, Structural)]
pub enum ClipError {
    InvalidPosition,
    TimeOverflow,
}

/// A clip position is either `absolute` or `relative`.
pub open spec fn spec_position_valid(p: Seq<char>) -> bool {
    p == "absolute"@ || p == "relative"@
}

pub open spec fn spec_all_positions_valid(l: Seq<ClipV>) -> bool {
    forall|i: int| 0 <= i < l.len() ==> spec_position_valid(#[trigger] l[i].position)
}

/// One clip normalized against the previous clip's absolute end: an absolute
/// clip stands as it is, a relative clip starts its offset after the previous
/// end and lasts its own length.
pub open spec fn spec_norm_step(c: ClipV, prev_end: int) -> (int, int) {
    if c.position == "relative"@ {
        (prev_end + c.start, prev_end + c.start + c.end)
    } else {
        (c.start as int, c.end as int)
    }
}

/// The clip list normalized left to right, each clip against the previous
/// normalized end, starting from zero.
pub open spec fn spec_norm_from(l: Seq<ClipV>, prev_end: int) -> Seq<(int, int)>
    decreases l.len(),
{
    if l.len() == 0 {
        Seq::empty()
    } else {
        let se = spec_norm_step(l.first(), prev_end);
        seq![se] + spec_norm_from(l.drop_first(), se.1)
    }
}

pub open spec fn spec_norm_clips(l: Seq<ClipV>) -> Seq<(int, int)> {
    spec_norm_from(l, 0)
}

pub proof fn lemma_norm_len(l: Seq<ClipV>, p: int)
    ensures
        spec_norm_from(l, p).len() == l.len(),
    decreases l.len(),
{
    if l.len() > 0 {
        lemma_norm_len(l.drop_first(), spec_norm_step(l.first(), p).1);
    }
}

/// Entry `i` of the normalized list is the step applied to clip `i` and the
/// previous normalized end.
pub proof fn lemma_norm_index(l: Seq<ClipV>, p: int, i: int)
    requires
        0 <= i < l.len(),
    ensures
        spec_norm_from(l, p)[i] == spec_norm_step(
            l[i],
            if i == 0 {
                p
            } else {
                spec_norm_from(l, p)[i - 1].1
            },
        ),
    decreases i,
{
    lemma_norm_len(l, p);
    let se = spec_norm_step(l.first(), p);
    if i == 0 {
        assert(l.first() == l[0]);
        assert(spec_norm_from(l, p)[0] == se);
    } else {
        let tail = l.drop_first();
        lemma_norm_len(tail, se.1);
        lemma_norm_index(tail, se.1, i - 1);
        assert(spec_norm_from(l, p)[i] == spec_norm_from(tail, se.1)[i - 1]);
        assert(tail[i - 1] == l[i]);
        if i == 1 {
            assert(spec_norm_from(l, p)[0] == se);
        } else {
            assert(spec_norm_from(l, p)[i - 1] == spec_norm_from(tail, se.1)[i - 2]);
        }
    }
}

/// Normalized times never go negative.
pub proof fn lemma_norm_nonneg(l: Seq<ClipV>, p: int, i: int)
    requires
        p >= 0,
        0 <= i < l.len(),
    ensures
        0 <= spec_norm_from(l, p)[i].0,
        0 <= spec_norm_from(l, p)[i].1,
    decreases i,
{
    lemma_norm_len(l, p);
    lemma_norm_index(l, p, i);
    if i > 0 {
        lemma_norm_nonneg(l, p, i - 1);
    }
}

/// Whether every normalized time fits the clip time type.
pub open spec fn spec_norm_fits(l: Seq<ClipV>) -> bool {
    forall|i: int|
        0 <= i < l.len() ==> (#[trigger] spec_norm_clips(l)[i]).0 <= u32::MAX
            && spec_norm_clips(l)[i].1 <= u32::MAX
}

/// Validates and normalizes a clip list: every position must be `absolute`
/// or `relative`, and every normalized time must fit.  On success every clip
/// comes back absolute, with the normalized times.
pub fn normalize_clips(clips: &Clips) -> (r: Result<Clips, ClipError>)
    ensures
        r is Err <==> !spec_all_positions_valid(clips.deep_view()) || !spec_norm_fits(
            clips.deep_view(),
        ),
        r == Result::<Clips, ClipError>::Err(ClipError::InvalidPosition) <==> !spec_all_positions_valid(
            clips.deep_view(),
        ),
        r matches Result::Ok(v) ==> {
            &&& v.deep_view().len() == clips.deep_view().len()
            &&& forall|i: int|
                0 <= i < v.deep_view().len() ==> (#[trigger] v.deep_view()[i]).start as int
                    == spec_norm_clips(clips.deep_view())[i].0 && v.deep_view()[i].end as int
                    == spec_norm_clips(clips.deep_view())[i].1 && v.deep_view()[i].position
                    == "absolute"@
        },
{
    let ghost dv = clips.deep_view();
    let n = clips.len();
    proof {
        assert(dv.len() == n as int);
    }
    let mut i: usize = 0;
    while i < n
        invariant
            i <= n,
            n == clips@.len(),
            dv == clips.deep_view(),
            dv.len() == n as int,
            forall|j: int| 0 <= j < i as int ==> spec_position_valid(#[trigger] dv[j].position),
        decreases n - i,
    {
        let p = &clips[i].position;
        let ok = str_eq(p.as_str(), "absolute") || str_eq(p.as_str(), "relative");
        proof {
            assert(dv[i as int] == clips@[i as int]@);
        }
        if !ok {
            proof {
                assert(dv[i as int].position == clips@[i as int].position@);
                assert(!spec_position_valid(dv[i as int].position));
            }
            return Result::Err(ClipError::InvalidPosition);
        }
        i += 1;
    }
    proof {
        lemma_norm_len(dv, 0);
    }
    let mut out: Clips = Vec::new();
    let mut prev_end: u32 = 0;
    let mut k: usize = 0;
    while k < n
        invariant
            k <= n,
            n == clips@.len(),
            dv == clips.deep_view(),
            dv.len() == n as int,
            spec_norm_clips(dv).len() == n as int,
            spec_all_positions_valid(dv),
            out@.len() == k as int,
            prev_end as int == (if k == 0 {
                0int
            } else {
                spec_norm_clips(dv)[k as int - 1].1
            }),
            forall|j: int|
                0 <= j < k as int ==> (#[trigger] out.deep_view()[j]).start as int
                    == spec_norm_clips(dv)[j].0 && out.deep_view()[j].end as int
                    == spec_norm_clips(dv)[j].1 && out.deep_view()[j].position == "absolute"@,
        decreases n - k,
    {
        proof {
            assert(dv[k as int] == clips@[k as int]@);
            lemma_norm_index(dv, 0, k as int);
            if k > 0 {
                lemma_norm_nonneg(dv, 0, k as int - 1);
            }
        }
        let c = &clips[k];
        let rel = str_eq(c.position.as_str(), "relative");
        let s64: u64;
        let e64: u64;
        if rel {
            s64 = prev_end as u64 + c.start as u64;
            e64 = s64 + c.end as u64;
        } else {
            s64 = c.start as u64;
            e64 = c.end as u64;
        }
        proof {
            assert(s64 as int == spec_norm_clips(dv)[k as int].0);
            assert(e64 as int == spec_norm_clips(dv)[k as int].1);
        }
        if s64 > u32::MAX as u64 || e64 > u32::MAX as u64 {
            proof {
                assert(!spec_norm_fits(dv));
            }
            return Result::Err(ClipError::TimeOverflow);
        }
        let ghost prev_dv = out.deep_view();
        out.push(Clip { start: s64 as u32, end: e64 as u32, position: "absolute".to_owned() });
        prev_end = e64 as u32;
        proof {
            assert forall|j: int| 0 <= j < k as int + 1 implies (#[trigger] out.deep_view()[j]).start as int
                == spec_norm_clips(dv)[j].0 && out.deep_view()[j].end as int == spec_norm_clips(
                dv,
            )[j].1 && out.deep_view()[j].position == "absolute"@ by {
                if j < k as int {
                    assert(out@[j] == out@.drop_last()[j]);
                    assert(out.deep_view()[j] == out@[j]@);
                    assert(prev_dv[j] == out@.drop_last()[j]@);
                } else {
                    assert(out.deep_view()[j] == out@[j]@);
                }
            }
        }
        k += 1;
    }
    proof {
        assert(spec_norm_fits(dv)) by {
            assert forall|i2: int|
                0 <= i2 < dv.len() implies (#[trigger] spec_norm_clips(dv)[i2]).0 <= u32::MAX
                && spec_norm_clips(dv)[i2].1 <= u32::MAX by {
                assert(out.deep_view()[i2].start as int == spec_norm_clips(dv)[i2].0);
                assert(out.deep_view()[i2].end as int == spec_norm_clips(dv)[i2].1);
            }
        }
    }
    Result::Ok(out)
}

// ---------------------------------------------------------------------------
// The selection filter
// ---------------------------------------------------------------------------

/// The selection term of one normalized clip.
pub open spec fn spec_between_expr(c: ClipV) -> Seq<char> {
    "between(t,"@ + spec_dec(c.start as nat) + ","@ + spec_dec(c.end as nat) + ")"@
}

/// The whole audio filter of the edit stage: the tempo chain, then the
/// selection over the normalized clips, then the timestamp rebase.
pub open spec fn spec_edit_filter(tempo: Seq<char>, l: Seq<ClipV>) -> Seq<char> {
    tempo + ",aselect='"@ + spec_join_sep(l.map_values(|c: ClipV| spec_between_expr(c)), '+')
        + "',asetpts=N/SR/TB"@
}

/// Builds the edit stage's filter argument from the tempo chain and the
/// normalized clips.
pub fn edit_filter_arg(tempo_arg: &str, clips: &Clips) -> (r: String)
    ensures
        r@ == spec_edit_filter(tempo_arg@, clips.deep_view()),
{
    let mut out: Vec<char> = str_chars(tempo_arg);
    let mut head = str_chars(",aselect='");
    out.append(&mut head);
    let ghost base = tempo_arg@ + ",aselect='"@;
    let n = clips.len();
    let mut i: usize = 0;
    proof {
        assert(clips.deep_view().take(0).map_values(|c: ClipV| spec_between_expr(c))
            =~= Seq::<Seq<char>>::empty());
        assert(out@ =~= base + spec_join_sep(
            clips.deep_view().take(0).map_values(|c: ClipV| spec_between_expr(c)),
            '+',
        ));
    }
    while i < n
        invariant
            i <= n,
            n == clips@.len(),
            clips.deep_view().len() == n as int,
            out@ == base + spec_join_sep(
                clips.deep_view().take(i as int).map_values(|c: ClipV| spec_between_expr(c)),
                '+',
            ),
        decreases n - i,
    {
        if i > 0 {
            out.push('+');
        }
        let mut part = str_chars("between(t,");
        out.append(&mut part);
        push_dec(&mut out, clips[i].start as u64);
        out.push(',');
        push_dec(&mut out, clips[i].end as u64);
        out.push(')');
        proof {
            reveal_strlit(",");
            reveal_strlit(")");
            assert(","@ =~= seq![',']);
            assert(")"@ =~= seq![')']);
            let dv = clips.deep_view();
            let m0 = dv.take(i as int).map_values(|c: ClipV| spec_between_expr(c));
            let m1 = dv.take(i + 1 as int).map_values(|c: ClipV| spec_between_expr(c));
            assert(dv[i as int] == clips@[i as int]@);
            assert(m1.drop_last() =~= m0);
            assert(m1.last() == spec_between_expr(dv[i as int]));
            assert(spec_between_expr(dv[i as int]) =~= "between(t,"@ + spec_dec(
                clips@[i as int].start as nat,
            ) + seq![','] + spec_dec(clips@[i as int].end as nat) + seq![')']);
            if i == 0 {
                assert(m0.len() == 0);
                assert(out@ =~= base + m1.last());
                assert(out@ =~= base + spec_join_sep(m1, '+'));
            } else {
                assert(m1.len() >= 2);
                assert(out@ =~= base + (spec_join_sep(m0, '+') + seq!['+'] + m1.last()));
                assert(out@ =~= base + spec_join_sep(m1, '+'));
            }
        }
        i += 1;
    }
    let mut tail = str_chars("',asetpts=N/SR/TB");
    out.append(&mut tail);
    proof {
        assert(clips.deep_view().take(n as int) =~= clips.deep_view());
        assert(out@ =~= spec_edit_filter(tempo_arg@, clips.deep_view()));
    }
    chars_to_string(out)
}

} // verus!
