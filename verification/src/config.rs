//! The declarative, user-authored stage configurations.
//!
//! Each stage of the pipeline owns one of these records; structural equality
//! against the stage's stored fingerprint is the invalidation signal, so every
//! type here has a mathematical view and a verified equality test over it.

use vstd::prelude::*;

verus! {

/// Output-stage configuration: how the raw intermediate is produced.
#[derive(Clone, Debug, PartialEq)]
pub struct Output {
    pub name: String,
    pub build_command: Option<String>,
    pub cache: Option<bool>,
    pub debug: Option<bool>,
    pub output_command: String,
    pub output_buffer: String,
}

/// Transform-stage configuration: parameters of the raw-to-audio conversion.
/// `tempo` is kept in its canonical decimal text form so the record is exact.
#[derive(Clone, Debug, PartialEq)]
pub struct Sox {
    pub bit_depth: u32,
    pub sample_rate: u32,
    pub channels: u32,
    pub encoding: String,
    pub other_options_pre: Option<String>,
    pub other_options_post: Option<String>,
    pub tempo: Option<String>,
}

/// Acquisition-stage configuration: the declared sources and build command.
#[derive(Clone, Debug, PartialEq)]
pub struct Build {
    pub build_command: String,
    pub http_sources: Vec<String>,
    pub git_sources: Vec<String>,
    pub git_update: Option<bool>,
    pub always_rebuild: Option<bool>,
    pub copy_me: bool,
}

/// One clip of the edit stage; times are whole seconds, and `position` says
/// whether they are absolute or relative to the previous clip's end.
#[derive(Clone, Debug, PartialEq)]
pub struct Clip {
    pub start: u32,
    pub end: u32,
    pub position: String,
}

pub type Clips = Vec<Clip>;

/// The edit-stage configuration as fingerprinted: the clip list may be absent
/// altogether, which is distinct from an empty list.
#[derive(Clone, Debug, PartialEq)]
pub struct ClipsOpt {
    pub clip: Option<Clips>,
}

/// A whole item configuration.
#[derive(Clone, Debug, PartialEq)]
pub struct TrackConfig {
    pub output: Output,
    pub sox: Sox,
    pub build: Option<Build>,
    pub clip: Option<Clips>,
}

// ---------------------------------------------------------------------------
// Views
// ---------------------------------------------------------------------------

pub struct OutputV {
    pub name: Seq<char>,
    pub build_command: Option<Seq<char>>,
    pub cache: Option<bool>,
    pub debug: Option<bool>,
    pub output_command: Seq<char>,
    pub output_buffer: Seq<char>,
}

pub struct SoxV {
    pub bit_depth: u32,
    pub sample_rate: u32,
    pub channels: u32,
    pub encoding: Seq<char>,
    pub other_options_pre: Option<Seq<char>>,
    pub other_options_post: Option<Seq<char>>,
    pub tempo: Option<Seq<char>>,
}

pub struct BuildV {
    pub build_command: Seq<char>,
    pub http_sources: Seq<Seq<char>>,
    pub git_sources: Seq<Seq<char>>,
    pub git_update: Option<bool>,
    pub always_rebuild: Option<bool>,
    pub copy_me: bool,
}

pub struct ClipV {
    pub start: u32,
    pub end: u32,
    pub position: Seq<char>,
}

pub struct ClipsOptV {
    pub clip: Option<Seq<ClipV>>,
}

pub struct TrackConfigV {
    pub output: OutputV,
    pub sox: SoxV,
    pub build: Option<BuildV>,
    pub clip: Option<Seq<ClipV>>,
}

pub open spec fn opt_str_view(o: Option<String>) -> Option<Seq<char>> {
    match o {
        Option::None => Option::None,
        Option::Some(s) => Option::Some(s@),
    }
}

impl View for Output {
    type V = OutputV;

    open spec fn view(&self) -> OutputV {
        OutputV {
            name: self.name@,
            build_command: opt_str_view(self.build_command),
            cache: self.cache,
            debug: self.debug,
            output_command: self.output_command@,
            output_buffer: self.output_buffer@,
        }
    }
}

impl View for Sox {
    type V = SoxV;

    open spec fn view(&self) -> SoxV {
        SoxV {
            bit_depth: self.bit_depth,
            sample_rate: self.sample_rate,
            channels: self.channels,
            encoding: self.encoding@,
            other_options_pre: opt_str_view(self.other_options_pre),
            other_options_post: opt_str_view(self.other_options_post),
            tempo: opt_str_view(self.tempo),
        }
    }
}

impl View for Build {
    type V = BuildV;

    open spec fn view(&self) -> BuildV {
        BuildV {
            build_command: self.build_command@,
            http_sources: self.http_sources.deep_view(),
            git_sources: self.git_sources.deep_view(),
            git_update: self.git_update,
            always_rebuild: self.always_rebuild,
            copy_me: self.copy_me,
        }
    }
}

impl View for Clip {
    type V = ClipV;

    open spec fn view(&self) -> ClipV {
        ClipV { start: self.start, end: self.end, position: self.position@ }
    }
}

impl DeepView for Clip {
    type V = ClipV;

    open spec fn deep_view(&self) -> ClipV {
        self.view()
    }
}

pub open spec fn opt_clips_view(o: Option<Clips>) -> Option<Seq<ClipV>> {
    match o {
        Option::None => Option::None,
        Option::Some(cs) => Option::Some(cs.deep_view()),
    }
}

impl View for ClipsOpt {
    type V = ClipsOptV;

    open spec fn view(&self) -> ClipsOptV {
        ClipsOptV { clip: opt_clips_view(self.clip) }
    }
}

impl View for TrackConfig {
    type V = TrackConfigV;

    open spec fn view(&self) -> TrackConfigV {
        TrackConfigV {
            output: self.output@,
            sox: self.sox@,
            build: match self.build {
                Option::None => Option::None,
                Option::Some(ref b) => Option::Some(b@),
            },
            clip: opt_clips_view(self.clip),
        }
    }
}

impl TrackConfig {
    /// The edit-stage configuration as compared against its fingerprint.
    pub open spec fn spec_clips_opt(self) -> ClipsOptV {
        ClipsOptV { clip: opt_clips_view(self.clip) }
    }
}

// ---------------------------------------------------------------------------
// Equality tests over the views
// ---------------------------------------------------------------------------

/// Equality of optional strings, by their views.
pub fn eq_opt_str(a: &Option<String>, b: &Option<String>) -> (r: bool)
    ensures
        r == (opt_str_view(*a) == opt_str_view(*b)),
{
    match (a, b) {
        (Option::None, Option::None) => true,
        (Option::Some(x), Option::Some(y)) => *x == *y,
        _ => false,
    }
}

/// Equality of optional booleans.
pub fn eq_opt_bool(a: &Option<bool>, b: &Option<bool>) -> (r: bool)
    ensures
        r == (*a == *b),
{
    match (a, b) {
        (Option::None, Option::None) => true,
        (Option::Some(x), Option::Some(y)) => *x == *y,
        _ => false,
    }
}

/// Equality of string lists, by their views.
pub fn eq_str_vec(a: &Vec<String>, b: &Vec<String>) -> (r: bool)
    ensures
        r == (a.deep_view() == b.deep_view()),
{
    if a.len() != b.len() {
        proof {
            assert(a.deep_view().len() == a@.len());
            assert(b.deep_view().len() == b@.len());
        }
        return false;
    }
    let n = a.len();
    let mut i: usize = 0;
    while i < n
        invariant
            i <= n,
            n == a@.len() && n == b@.len(),
            forall|j: int| 0 <= j < i as int ==> a.deep_view()[j] == b.deep_view()[j],
        decreases n - i,
    {
        proof {
            assert(a.deep_view()[i as int] == a@[i as int]@);
            assert(b.deep_view()[i as int] == b@[i as int]@);
        }
        if !(a[i] == b[i]) {
            proof {
                assert(a.deep_view()[i as int] != b.deep_view()[i as int]);
            }
            return false;
        }
        i += 1;
    }
    proof {
        assert(a.deep_view() =~= b.deep_view());
    }
    true
}

/// Equality of two output configurations, by their views.
pub fn eq_output(a: &Output, b: &Output) -> (r: bool)
    ensures
        r == (a@ == b@),
{
    let r = a.name == b.name && eq_opt_str(&a.build_command, &b.build_command) && eq_opt_bool(
        &a.cache,
        &b.cache,
    ) && eq_opt_bool(&a.debug, &b.debug) && a.output_command == b.output_command
        && a.output_buffer == b.output_buffer;
    r
}

/// Equality of two transform configurations, by their views.
pub fn eq_sox(a: &Sox, b: &Sox) -> (r: bool)
    ensures
        r == (a@ == b@),
{
    a.bit_depth == b.bit_depth && a.sample_rate == b.sample_rate && a.channels == b.channels
        && a.encoding == b.encoding && eq_opt_str(&a.other_options_pre, &b.other_options_pre)
        && eq_opt_str(&a.other_options_post, &b.other_options_post) && eq_opt_str(
        &a.tempo,
        &b.tempo,
    )
}

/// Equality of two acquisition configurations, by their views.
pub fn eq_build(a: &Build, b: &Build) -> (r: bool)
    ensures
        r == (a@ == b@),
{
    a.build_command == b.build_command && eq_str_vec(&a.http_sources, &b.http_sources) && eq_str_vec(
        &a.git_sources,
        &b.git_sources,
    ) && eq_opt_bool(&a.git_update, &b.git_update) && eq_opt_bool(
        &a.always_rebuild,
        &b.always_rebuild,
    ) && a.copy_me == b.copy_me
}

/// Equality of two clips, by their views.
pub fn eq_clip(a: &Clip, b: &Clip) -> (r: bool)
    ensures
        r == (a@ == b@),
{
    a.start == b.start && a.end == b.end && a.position == b.position
}

/// Equality of two clip lists, by their views.
pub fn eq_clips(a: &Clips, b: &Clips) -> (r: bool)
    ensures
        r == (a.deep_view() == b.deep_view()),
{
    if a.len() != b.len() {
        proof {
            assert(a.deep_view().len() == a@.len());
            assert(b.deep_view().len() == b@.len());
        }
        return false;
    }
    let n = a.len();
    let mut i: usize = 0;
    while i < n
        invariant
            i <= n,
            n == a@.len() && n == b@.len(),
            forall|j: int| 0 <= j < i as int ==> a.deep_view()[j] == b.deep_view()[j],
        decreases n - i,
    {
        proof {
            assert(a.deep_view()[i as int] == a@[i as int]@);
            assert(b.deep_view()[i as int] == b@[i as int]@);
        }
        if !eq_clip(&a[i], &b[i]) {
            proof {
                assert(a.deep_view()[i as int] != b.deep_view()[i as int]);
            }
            return false;
        }
        i += 1;
    }
    proof {
        assert(a.deep_view() =~= b.deep_view());
    }
    true
}

/// Equality of two edit-stage fingerprint values, by their views.
pub fn eq_clips_opt(a: &ClipsOpt, b: &ClipsOpt) -> (r: bool)
    ensures
        r == (a@ == b@),
{
    match (&a.clip, &b.clip) {
        (Option::None, Option::None) => true,
        (Option::Some(x), Option::Some(y)) => eq_clips(x, y),
        _ => false,
    }
}

// ---------------------------------------------------------------------------
// Duplication with known contents
// ---------------------------------------------------------------------------

/// A copy of an optional string whose view equals the original's.
pub fn dup_opt_str(o: &Option<String>) -> (r: Option<String>)
    ensures
        opt_str_view(r) == opt_str_view(*o),
{
    match o {
        Option::None => Option::None,
        Option::Some(s) => Option::Some(s.clone()),
    }
}

impl Output {
    /// A copy whose view equals this one's.
    pub fn duplicate(&self) -> (r: Output)
        ensures
            r@ == self@,
    {
        Output {
            name: self.name.clone(),
            build_command: dup_opt_str(&self.build_command),
            cache: self.cache,
            debug: self.debug,
            output_command: self.output_command.clone(),
            output_buffer: self.output_buffer.clone(),
        }
    }
}

impl Sox {
    /// A copy whose view equals this one's.
    pub fn duplicate(&self) -> (r: Sox)
        ensures
            r@ == self@,
    {
        Sox {
            bit_depth: self.bit_depth,
            sample_rate: self.sample_rate,
            channels: self.channels,
            encoding: self.encoding.clone(),
            other_options_pre: dup_opt_str(&self.other_options_pre),
            other_options_post: dup_opt_str(&self.other_options_post),
            tempo: dup_opt_str(&self.tempo),
        }
    }
}

/// A copy of a string list whose view equals the original's.
pub fn dup_str_vec(v: &Vec<String>) -> (r: Vec<String>)
    ensures
        r.deep_view() == v.deep_view(),
{
    let mut out: Vec<String> = Vec::new();
    let n = v.len();
    let mut i: usize = 0;
    while i < n
        invariant
            i <= n,
            n == v@.len(),
            out@.len() == i as int,
            forall|j: int| 0 <= j < i as int ==> out.deep_view()[j] == v.deep_view()[j],
        decreases n - i,
    {
        out.push(v[i].clone());
        proof {
            assert(out.deep_view()[i as int] == out@[i as int]@);
            assert(v.deep_view()[i as int] == v@[i as int]@);
        }
        i += 1;
    }
    proof {
        assert(out.deep_view() =~= v.deep_view());
    }
    out
}

impl Build {
    /// A copy whose view equals this one's.
    pub fn duplicate(&self) -> (r: Build)
        ensures
            r@ == self@,
    {
        Build {
            build_command: self.build_command.clone(),
            http_sources: dup_str_vec(&self.http_sources),
            git_sources: dup_str_vec(&self.git_sources),
            git_update: self.git_update,
            always_rebuild: self.always_rebuild,
            copy_me: self.copy_me,
        }
    }
}

impl Clip {
    /// A copy whose view equals this one's.
    pub fn duplicate(&self) -> (r: Clip)
        ensures
            r@ == self@,
    {
        Clip { start: self.start, end: self.end, position: self.position.clone() }
    }
}

/// A copy of a clip list whose view equals the original's.
pub fn dup_clips(v: &Clips) -> (r: Clips)
    ensures
        r.deep_view() == v.deep_view(),
{
    let mut out: Clips = Vec::new();
    let n = v.len();
    let mut i: usize = 0;
    while i < n
        invariant
            i <= n,
            n == v@.len(),
            out@.len() == i as int,
            forall|j: int| 0 <= j < i as int ==> out.deep_view()[j] == v.deep_view()[j],
        decreases n - i,
    {
        let c = v[i].duplicate();
        out.push(c);
        proof {
            assert(out.deep_view()[i as int] == out@[i as int]@);
            assert(v.deep_view()[i as int] == v@[i as int]@);
        }
        i += 1;
    }
    proof {
        assert(out.deep_view() =~= v.deep_view());
    }
    out
}

/// A copy of an optional clip list whose view equals the original's.
pub fn dup_opt_clips(o: &Option<Clips>) -> (r: Option<Clips>)
    ensures
        opt_clips_view(r) == opt_clips_view(*o),
{
    match o {
        Option::None => Option::None,
        Option::Some(cs) => Option::Some(dup_clips(cs)),
    }
}

impl ClipsOpt {
    /// A copy whose view equals this one's.
    pub fn duplicate(&self) -> (r: ClipsOpt)
        ensures
            r@ == self@,
    {
        ClipsOpt { clip: dup_opt_clips(&self.clip) }
    }
}

pub open spec fn opt_output_view(o: Option<Output>) -> Option<OutputV> {
    match o {
        Option::None => Option::None,
        Option::Some(x) => Option::Some(x@),
    }
}

pub open spec fn opt_sox_view(o: Option<Sox>) -> Option<SoxV> {
    match o {
        Option::None => Option::None,
        Option::Some(x) => Option::Some(x@),
    }
}

pub open spec fn opt_build_view(o: Option<Build>) -> Option<BuildV> {
    match o {
        Option::None => Option::None,
        Option::Some(x) => Option::Some(x@),
    }
}

pub open spec fn opt_clips_opt_view(o: Option<ClipsOpt>) -> Option<ClipsOptV> {
    match o {
        Option::None => Option::None,
        Option::Some(x) => Option::Some(x@),
    }
}

/// A copy of an optional output record whose view equals the original's.
pub fn dup_opt_output(o: &Option<Output>) -> (r: Option<Output>)
    ensures
        opt_output_view(r) == opt_output_view(*o),
{
    match o {
        Option::None => Option::None,
        Option::Some(x) => Option::Some(x.duplicate()),
    }
}

/// A copy of an optional transform record whose view equals the original's.
pub fn dup_opt_sox(o: &Option<Sox>) -> (r: Option<Sox>)
    ensures
        opt_sox_view(r) == opt_sox_view(*o),
{
    match o {
        Option::None => Option::None,
        Option::Some(x) => Option::Some(x.duplicate()),
    }
}

/// A copy of an optional acquisition record whose view equals the original's.
pub fn dup_opt_build(o: &Option<Build>) -> (r: Option<Build>)
    ensures
        opt_build_view(r) == opt_build_view(*o),
{
    match o {
        Option::None => Option::None,
        Option::Some(x) => Option::Some(x.duplicate()),
    }
}

/// A copy of an optional edit record whose view equals the original's.
pub fn dup_opt_clips_opt(o: &Option<ClipsOpt>) -> (r: Option<ClipsOpt>)
    ensures
        opt_clips_opt_view(r) == opt_clips_opt_view(*o),
{
    match o {
        Option::None => Option::None,
        Option::Some(x) => Option::Some(x.duplicate()),
    }
}

impl TrackConfig {
    /// A copy whose view equals this one's.
    pub fn duplicate(&self) -> (r: TrackConfig)
        ensures
            r@ == self@,
    {
        TrackConfig {
            output: self.output.duplicate(),
            sox: self.sox.duplicate(),
            build: dup_opt_build(&self.build),
            clip: dup_opt_clips(&self.clip),
        }
    }
}

} // verus!
