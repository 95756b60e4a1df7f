//! The transform tool's argument list: built from the transform
//! configuration, the caller-split extra arguments, and the artifact paths,
//! with a printable form that quotes the two path arguments.

use vstd::prelude::*;

use crate::config::SoxV;
use crate::pipeline::TrackData;
use crate::scan::{escape_quotes_chars, spec_escape_quotes, spec_join_sep};
use crate::text::{chars_to_string, spec_dec, str_chars, u64_string};
use crate::track::TrackName;

verus! {

/// The transform tool's argument list.  The two counters remember how many
/// extra arguments were spliced in before and after the input arguments, so
/// the printable form knows which positions hold the two paths.
#[derive(Clone, Debug)]
pub struct SoxArgs {
    pub args: Vec<String>,
    pub buffer_args_n_pre: usize,
    pub buffer_args_n_post: usize,
}

/// The argument list: format options, the extra pre arguments, the typed
/// input path, the extra post arguments, and the output path.
pub open spec fn spec_sox_args(
    s: SoxV,
    pre: Seq<Seq<char>>,
    post: Seq<Seq<char>>,
    raw_path: Seq<char>,
    out_path: Seq<char>,
) -> Seq<Seq<char>> {
    seq![
        "-b"@,
        spec_dec(s.bit_depth as nat),
        "-r"@,
        spec_dec(s.sample_rate as nat),
        "-c"@,
        spec_dec(s.channels as nat),
        "-e"@,
        s.encoding,
    ] + pre + seq!["-t"@, "raw"@, raw_path, "-t"@, "flac"@] + post + seq![out_path]
}

impl SoxArgs {
    /// The argument list is complete: the fixed arguments plus the two
    /// spliced-in groups.
    pub open spec fn wf(self) -> bool {
        self.args@.len() == 14 + self.buffer_args_n_pre + self.buffer_args_n_post
    }

    /// Builds the argument list.  The extra pre and post arguments are the
    /// configured option strings already split into words by the caller.
    pub fn new(
        track_name: &TrackName,
        config: &TrackData,
        pre_args: &Vec<String>,
        post_args: &Vec<String>,
    ) -> (r: SoxArgs)
        ensures
            r.args.deep_view() == spec_sox_args(
                config.track_config.sox@,
                pre_args.deep_view(),
                post_args.deep_view(),
                track_name@.dest_root + "/"@ + track_name@.name + "/"@ + "intermediate.raw"@,
                track_name@.dest_root + "/"@ + track_name@.name + "/"@ + "unprocessed.flac"@,
            ),
            r.buffer_args_n_pre == pre_args@.len(),
            r.buffer_args_n_post == post_args@.len(),
            r.wf(),
    {
        let sox = &config.track_config.sox;
        let ghost expected = spec_sox_args(
            config.track_config.sox@,
            pre_args.deep_view(),
            post_args.deep_view(),
            track_name@.dest_root + "/"@ + track_name@.name + "/"@ + "intermediate.raw"@,
            track_name@.dest_root + "/"@ + track_name@.name + "/"@ + "unprocessed.flac"@,
        );
        let mut args: Vec<String> = Vec::new();
        args.push("-b".to_owned());
        args.push(u64_string(sox.bit_depth as u64));
        args.push("-r".to_owned());
        args.push(u64_string(sox.sample_rate as u64));
        args.push("-c".to_owned());
        args.push(u64_string(sox.channels as u64));
        args.push("-e".to_owned());
        args.push(sox.encoding.clone());
        proof {
            assert(pre_args.deep_view().len() == pre_args@.len());
            assert(post_args.deep_view().len() == post_args@.len());
            assert(args.deep_view() =~= expected.take(8));
        }
        let npre = pre_args.len();
        let mut i: usize = 0;
        while i < npre
            invariant
                i <= npre,
                npre == pre_args@.len(),
                args@.len() == 8 + i as int,
                args.deep_view() == expected.take(8 + i as int),
                expected == spec_sox_args(
                    config.track_config.sox@,
                    pre_args.deep_view(),
                    post_args.deep_view(),
                    track_name@.dest_root + "/"@ + track_name@.name + "/"@ + "intermediate.raw"@,
                    track_name@.dest_root + "/"@ + track_name@.name + "/"@ + "unprocessed.flac"@,
                ),
            decreases npre - i,
        {
            args.push(pre_args[i].clone());
            proof {
                assert(pre_args.deep_view()[i as int] == pre_args@[i as int]@);
                assert(expected[8 + i as int] == pre_args.deep_view()[i as int]);
                assert(args.deep_view() =~= expected.take(8 + i + 1 as int));
            }
            i += 1;
        }
        let raw_path = track_name.artifact_path(TrackData::raw_filename());
        let out_path = track_name.artifact_path(TrackData::unprocessed_filename());
        args.push("-t".to_owned());
        args.push("raw".to_owned());
        args.push(raw_path);
        args.push("-t".to_owned());
        args.push("flac".to_owned());
        proof {
            assert(args.deep_view() =~= expected.take(13 + npre as int));
        }
        let npost = post_args.len();
        let mut j: usize = 0;
        while j < npost
            invariant
                j <= npost,
                npost == post_args@.len(),
                npre == pre_args@.len(),
                args@.len() == 13 + npre as int + j as int,
                args.deep_view() == expected.take(13 + npre as int + j as int),
                expected == spec_sox_args(
                    config.track_config.sox@,
                    pre_args.deep_view(),
                    post_args.deep_view(),
                    track_name@.dest_root + "/"@ + track_name@.name + "/"@ + "intermediate.raw"@,
                    track_name@.dest_root + "/"@ + track_name@.name + "/"@ + "unprocessed.flac"@,
                ),
            decreases npost - j,
        {
            args.push(post_args[j].clone());
            proof {
                assert(post_args.deep_view()[j as int] == post_args@[j as int]@);
                assert(expected[13 + npre + j as int] == post_args.deep_view()[j as int]);
                assert(args.deep_view() =~= expected.take(13 + npre + j + 1 as int));
            }
            j += 1;
        }
        let out_path2 = track_name.artifact_path(TrackData::unprocessed_filename());
        args.push(out_path2);
        proof {
            assert(expected[13 + npre + npost as int] == track_name@.dest_root + "/"@
                + track_name@.name + "/"@ + "unprocessed.flac"@);
            assert(args.deep_view() =~= expected.take(14 + npre + npost as int));
            assert(expected.take(14 + npre + npost as int) =~= expected);
        }
        SoxArgs { args, buffer_args_n_pre: npre, buffer_args_n_post: npost }
    }

    /// The argument at a printed position: the two path arguments are quoted
    /// with single quotes (their own quotes escaped), everything else stands
    /// as itself.
    pub open spec fn spec_shown_arg(self, i: int) -> Seq<char> {
        if i == 10 + self.buffer_args_n_pre || i == 13 + self.buffer_args_n_pre
            + self.buffer_args_n_post {
            seq!['\''] + spec_escape_quotes(self.args.deep_view()[i]) + seq!['\'']
        } else {
            self.args.deep_view()[i]
        }
    }

    /// The printed command line: the arguments joined with spaces, the two
    /// path arguments quoted.
    pub open spec fn spec_command_line(self) -> Seq<char> {
        spec_join_sep(Seq::new(self.args.deep_view().len(), |i: int| self.spec_shown_arg(i)), ' ')
    }

    /// Renders the argument list the way it is printed before the transform
    /// tool runs.
    pub fn command_line(&self) -> (r: String)
        requires
            self.wf(),
        ensures
            r@ == self.spec_command_line(),
    {
        let n = self.args.len();
        let ghost shown = Seq::new(self.args.deep_view().len(), |i: int| self.spec_shown_arg(i));
        let mut out: Vec<char> = Vec::new();
        let mut i: usize = 0;
        proof {
            assert(out@ =~= spec_join_sep(shown.take(0), ' '));
        }
        while i < n
            invariant
                i <= n,
                n == self.args@.len(),
                self.wf(),
                shown == Seq::new(self.args.deep_view().len(), |i2: int| self.spec_shown_arg(i2)),
                out@ == spec_join_sep(shown.take(i as int), ' '),
            decreases n - i,
        {
            if i > 0 {
                out.push(' ');
            }
            let quoted = i == 10 + self.buffer_args_n_pre || i == 13 + self.buffer_args_n_pre
                + self.buffer_args_n_post;
            if quoted {
                out.push('\'');
                let ac = str_chars(self.args[i].as_str());
                let mut esc = escape_quotes_chars(&ac);
                out.append(&mut esc);
                out.push('\'');
            } else {
                let mut ac = str_chars(self.args[i].as_str());
                out.append(&mut ac);
            }
            proof {
                assert(self.args.deep_view()[i as int] == self.args@[i as int]@);
                assert(shown.take(i + 1 as int).drop_last() =~= shown.take(i as int));
                assert(shown.take(i + 1 as int).last() == shown[i as int]);
                assert(shown[i as int] == self.spec_shown_arg(i as int));
                if i == 0 {
                    assert(out@ =~= shown[0]);
                    assert(out@ =~= spec_join_sep(shown.take(1), ' '));
                } else {
                    assert(shown.take(i + 1 as int).len() >= 2);
                    assert(out@ =~= spec_join_sep(shown.take(i as int), ' ') + seq![' ']
                        + shown[i as int]);
                    assert(out@ =~= spec_join_sep(shown.take(i + 1 as int), ' '));
                }
            }
            i += 1;
        }
        proof {
            assert(shown.take(n as int) =~= shown);
        }
        chars_to_string(out)
    }
}

} // verus!
