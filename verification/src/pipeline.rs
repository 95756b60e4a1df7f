//! The orchestrator's decision model.
//!
//! `StageSnapshot` is what one build sees of an item's artifact directory:
//! the parsed fingerprint record of each stage (or `None` when the record is
//! missing or corrupt) and whether each artifact is present.  `load_updates`
//! turns a snapshot and the current configuration into the update tracker,
//! `run_item` is the whole per-item run as a pure state transformer, and
//! `lemma_orchestrator_idempotent` is the idempotence law: a second run over
//! the state a run leaves behind does no work.

use vstd::prelude::*;

use crate::config::{dup_opt_build, dup_opt_clips, dup_opt_clips_opt, dup_opt_output, dup_opt_sox,
    eq_build, eq_clips, eq_output, eq_sox, opt_build_view, opt_clips_opt_view, opt_clips_view,
    opt_output_view, opt_sox_view, Build, Clips, ClipsOpt, ClipsOptV, Output, Sox, TrackConfig,
    TrackConfigV};
use crate::freshness::should_run_build;
use crate::updates::Updates;

verus! {

/// What one run reads from the item's artifact directory before it starts.
#[derive(Clone, Debug)]
pub struct StageSnapshot {
    pub build_record: Option<Build>,
    pub output_record: Option<Output>,
    pub sox_record: Option<Sox>,
    pub clip_record: Option<ClipsOpt>,
    pub raw_exists: bool,
    pub unprocessed_exists: bool,
    pub processed_exists: bool,
    pub build_lock_exists: bool,
}

pub struct SnapshotV {
    pub build_record: Option<crate::config::BuildV>,
    pub output_record: Option<crate::config::OutputV>,
    pub sox_record: Option<crate::config::SoxV>,
    pub clip_record: Option<ClipsOptV>,
    pub raw_exists: bool,
    pub unprocessed_exists: bool,
    pub processed_exists: bool,
    pub build_lock_exists: bool,
}

impl View for StageSnapshot {
    type V = SnapshotV;

    open spec fn view(&self) -> SnapshotV {
        SnapshotV {
            build_record: opt_build_view(self.build_record),
            output_record: opt_output_view(self.output_record),
            sox_record: opt_sox_view(self.sox_record),
            clip_record: opt_clips_opt_view(self.clip_record),
            raw_exists: self.raw_exists,
            unprocessed_exists: self.unprocessed_exists,
            processed_exists: self.processed_exists,
            build_lock_exists: self.build_lock_exists,
        }
    }
}

// ---------------------------------------------------------------------------
// Loading the update tracker
// ---------------------------------------------------------------------------

/// The acquisition stage's own staleness: caching disabled forces it, and a
/// declared build section is stale when its stored record differs.
pub open spec fn spec_build_dirty(c: TrackConfigV, s: SnapshotV) -> bool {
    c.output.cache == Option::Some(false) || (match c.build {
        Option::Some(b) => s.build_record != Option::Some(b),
        Option::None => false,
    })
}

/// The raw stage's own staleness: record mismatch or missing artifact.
pub open spec fn spec_raw_own_dirty(c: TrackConfigV, s: SnapshotV) -> bool {
    s.output_record != Option::Some(c.output) || !s.raw_exists
}

/// The transform stage's own staleness.
pub open spec fn spec_preprocessed_own_dirty(c: TrackConfigV, s: SnapshotV) -> bool {
    s.sox_record != Option::Some(c.sox) || !s.unprocessed_exists
}

/// The edit stage's own staleness.
pub open spec fn spec_edit_own_dirty(c: TrackConfigV, s: SnapshotV) -> bool {
    s.clip_record != Option::Some(ClipsOptV { clip: c.clip }) || !s.processed_exists
}

/// The update tracker computed at load time: each stage's own staleness with
/// the forward cascade applied.
pub open spec fn spec_load_updates(c: TrackConfigV, s: SnapshotV) -> Updates {
    let b = spec_build_dirty(c, s);
    let r = b || spec_raw_own_dirty(c, s);
    let p = r || spec_preprocessed_own_dirty(c, s);
    let f = p || spec_edit_own_dirty(c, s);
    Updates {
        needs_raw_update: r,
        needs_preprocessed_update: p,
        needs_build_update: b,
        needs_ffmpeg_update: f,
    }
}

/// Computes the update tracker from the configuration and the snapshot.
pub fn load_updates(config: &TrackConfig, snap: &StageSnapshot) -> (u: Updates)
    ensures
        u == spec_load_updates(config@, snap@),
        u.wf(),
{
    let build_dirty = if config.output.cache == Option::Some(false) {
        true
    } else {
        match &config.build {
            Option::Some(b) => match &snap.build_record {
                Option::Some(r) => !eq_build(r, b),
                Option::None => true,
            },
            Option::None => false,
        }
    };
    let raw_own = (match &snap.output_record {
        Option::Some(r) => !eq_output(r, &config.output),
        Option::None => true,
    }) || !snap.raw_exists;
    let preprocessed_own = (match &snap.sox_record {
        Option::Some(r) => !eq_sox(r, &config.sox),
        Option::None => true,
    }) || !snap.unprocessed_exists;
    let edit_own = (match &snap.clip_record {
        Option::Some(r) => match (&r.clip, &config.clip) {
            (Option::None, Option::None) => false,
            (Option::Some(x), Option::Some(y)) => !eq_clips(x, y),
            _ => true,
        },
        Option::None => true,
    }) || !snap.processed_exists;
    Updates::from_stage_state(build_dirty, raw_own, preprocessed_own, edit_own)
}

// ---------------------------------------------------------------------------
// Track data
// ---------------------------------------------------------------------------

/// An item's configuration together with the update tracker its load
/// computed.
#[derive(Clone, Debug)]
pub struct TrackData {
    pub track_config: TrackConfig,
    pub updates: Updates,
}

impl TrackData {
    /// The raw intermediate's file name inside the artifact directory.
    pub fn raw_filename() -> (r: &'static str)
        ensures
            r@ == "intermediate.raw"@,
    {
        "intermediate.raw"
    }

    /// The unprocessed audio artifact's file name.
    pub fn unprocessed_filename() -> (r: &'static str)
        ensures
            r@ == "unprocessed.flac"@,
    {
        "unprocessed.flac"
    }

    /// The final processed artifact's file name.
    pub fn processed_filename() -> (r: &'static str)
        ensures
            r@ == "processed.flac"@,
    {
        "processed.flac"
    }

    /// Builds the per-item state from the loaded configuration and the
    /// snapshot of the artifact directory.
    pub fn load_from_snapshot(track_config: TrackConfig, snap: &StageSnapshot) -> (r: TrackData)
        ensures
            r.track_config == track_config,
            r.updates == spec_load_updates(track_config@, snap@),
            r.updates.wf(),
    {
        let updates = load_updates(&track_config, snap);
        TrackData { track_config, updates }
    }

    /// The output-stage configuration.
    pub fn output(&self) -> (r: &Output)
        ensures
            *r == self.track_config.output,
    {
        &self.track_config.output
    }

    /// The transform-stage configuration.
    pub fn sox(&self) -> (r: &Sox)
        ensures
            *r == self.track_config.sox,
    {
        &self.track_config.sox
    }

    /// The acquisition-stage configuration, if one is declared.
    pub fn build(&self) -> (r: &Option<Build>)
        ensures
            *r == self.track_config.build,
    {
        &self.track_config.build
    }

    /// The declared clips, an empty list when none are declared.
    pub fn clips(&self) -> (r: Clips)
        ensures
            r.deep_view() == (match self.track_config@.clip {
                Option::Some(l) => l,
                Option::None => Seq::<crate::config::ClipV>::empty(),
            }),
    {
        match &self.track_config.clip {
            Option::Some(cs) => crate::config::dup_clips(cs),
            Option::None => {
                let r: Clips = Vec::new();
                proof {
                    assert(r.deep_view() =~= Seq::<crate::config::ClipV>::empty());
                }
                r
            },
        }
    }
}

impl Output {
    /// The shell command of the raw dump: the configured output command,
    /// piped through a byte-length cap.
    pub fn raw_dump_command(&self) -> (r: String)
        ensures
            r@ == self.output_command@ + " | head --bytes="@ + self.output_buffer@,
    {
        let mut s = self.output_command.clone();
        s.append(" | head --bytes=");
        s.append(self.output_buffer.as_str());
        s
    }
}

// ---------------------------------------------------------------------------
// The run model
// ---------------------------------------------------------------------------

/// What one run did: which stages executed, and the final tracker state.
#[derive(Clone, Copy, Debug, PartialEq, Eq, Structural)]
pub struct RunOutcome {
    pub ran_build_command: bool,
    pub ran_raw_dump: bool,
    pub ran_transform: bool,
    pub ran_edit: bool,
    pub flags: Updates,
}

/// Whether the acquisition sync reported any change, counting each source
/// kind only when the configuration declares it.
pub open spec fn spec_effective_source_change(
    c: TrackConfigV,
    git_changed: bool,
    http_changed: bool,
    local_changed: bool,
) -> bool {
    match c.build {
        Option::None => false,
        Option::Some(b) => (b.git_sources.len() > 0 && git_changed) || (b.http_sources.len() > 0
            && http_changed) || (b.copy_me && local_changed),
    }
}

/// One whole run of the orchestrator over an item, as a pure function from
/// the configuration, the on-disk snapshot and the acquisition sync's
/// reported changes to what ran and the snapshot the run leaves behind.
pub open spec fn spec_run_item(
    c: TrackConfigV,
    s: SnapshotV,
    git_changed: bool,
    http_changed: bool,
    local_changed: bool,
) -> (RunOutcome, SnapshotV) {
    let u0 = spec_load_updates(c, s);
    let eff = spec_effective_source_change(c, git_changed, http_changed, local_changed);
    let u1 = if eff {
        Updates::spec_all_set()
    } else {
        u0
    };
    let save_build = c.build is Some && u1.needs_build_update;
    let lock_after_wipe = s.build_lock_exists && !save_build;
    let run_build = match c.build {
        Option::Some(b) => b.build_command.len() > 0 && (b.always_rebuild == Option::Some(true)
            || !lock_after_wipe),
        Option::None => false,
    };
    let u2 = if run_build {
        Updates {
            needs_build_update: u1.needs_build_update,
            needs_raw_update: true,
            needs_preprocessed_update: true,
            needs_ffmpeg_update: true,
        }
    } else {
        u1
    };
    let outcome = RunOutcome {
        ran_build_command: run_build,
        ran_raw_dump: u2.needs_raw_update,
        ran_transform: u2.needs_preprocessed_update,
        ran_edit: u2.needs_ffmpeg_update,
        flags: u2,
    };
    let s2 = SnapshotV {
        build_record: if save_build {
            c.build
        } else {
            s.build_record
        },
        output_record: if u2.needs_raw_update {
            Option::Some(c.output)
        } else {
            s.output_record
        },
        sox_record: if u2.needs_preprocessed_update {
            Option::Some(c.sox)
        } else {
            s.sox_record
        },
        clip_record: if u2.needs_ffmpeg_update {
            Option::Some(ClipsOptV { clip: c.clip })
        } else {
            s.clip_record
        },
        raw_exists: s.raw_exists || u2.needs_raw_update,
        unprocessed_exists: s.unprocessed_exists || u2.needs_preprocessed_update,
        processed_exists: s.processed_exists || u2.needs_ffmpeg_update,
        build_lock_exists: if run_build {
            true
        } else {
            lock_after_wipe
        },
    };
    (outcome, s2)
}

/// Runs the orchestrator's decisions over a snapshot, given what the
/// acquisition sync reported, and returns what ran and the snapshot the run
/// leaves behind.  The caller performs the stages named in the outcome, in
/// pipeline order, writing each stage's record as it goes.
pub fn run_item(
    config: &TrackConfig,
    snap: &StageSnapshot,
    git_changed: bool,
    http_changed: bool,
    local_changed: bool,
) -> (r: (RunOutcome, StageSnapshot))
    ensures
        r.0 == spec_run_item(config@, snap@, git_changed, http_changed, local_changed).0,
        r.1@ == spec_run_item(config@, snap@, git_changed, http_changed, local_changed).1,
        r.0.flags.wf(),
{
    let mut updates = load_updates(config, snap);
    let mut eff = false;
    match &config.build {
        Option::Some(b) => {
            if b.git_sources.len() > 0 && git_changed {
                eff = true;
            }
            if b.http_sources.len() > 0 && http_changed {
                eff = true;
            }
            if b.copy_me && local_changed {
                eff = true;
            }
            proof {
                assert(b.http_sources.deep_view().len() == b.http_sources@.len());
                assert(b.git_sources.deep_view().len() == b.git_sources@.len());
            }
        },
        Option::None => {},
    }
    if eff {
        updates.build_updated();
    }
    let save_build = config.build.is_some() && updates.needs_build_update;
    let lock_after_wipe = snap.build_lock_exists && !save_build;
    let run_build = match &config.build {
        Option::Some(b) => !b.build_command.as_str().is_empty() && should_run_build(
            &b.always_rebuild,
            lock_after_wipe,
        ),
        Option::None => false,
    };
    if run_build {
        updates.rebuilt();
    }
    let outcome = RunOutcome {
        ran_build_command: run_build,
        ran_raw_dump: updates.needs_raw_update,
        ran_transform: updates.needs_preprocessed_update,
        ran_edit: updates.needs_ffmpeg_update,
        flags: updates,
    };
    let build_record = if save_build {
        dup_opt_build(&config.build)
    } else {
        dup_opt_build(&snap.build_record)
    };
    let output_record = if updates.needs_raw_update {
        Option::Some(config.output.duplicate())
    } else {
        dup_opt_output(&snap.output_record)
    };
    let sox_record = if updates.needs_preprocessed_update {
        Option::Some(config.sox.duplicate())
    } else {
        dup_opt_sox(&snap.sox_record)
    };
    let clip_record = if updates.needs_ffmpeg_update {
        Option::Some(ClipsOpt { clip: dup_opt_clips(&config.clip) })
    } else {
        dup_opt_clips_opt(&snap.clip_record)
    };
    let new_snap = StageSnapshot {
        build_record,
        output_record,
        sox_record,
        clip_record,
        raw_exists: snap.raw_exists || updates.needs_raw_update,
        unprocessed_exists: snap.unprocessed_exists || updates.needs_preprocessed_update,
        processed_exists: snap.processed_exists || updates.needs_ffmpeg_update,
        build_lock_exists: if run_build {
            true
        } else {
            lock_after_wipe
        },
    };
    (outcome, new_snap)
}

// ---------------------------------------------------------------------------
// Idempotence
// ---------------------------------------------------------------------------

/// Idempotence of the orchestrator: when caching is not disabled and no
/// unconditional rebuild is configured, a second run over the state a run
/// leaves behind, with no source changes reported, executes nothing, leaves
/// every flag clear, and does not change the state.
pub proof fn lemma_orchestrator_idempotent(
    c: TrackConfigV,
    s: SnapshotV,
    git_changed: bool,
    http_changed: bool,
    local_changed: bool,
)
    requires
        c.output.cache != Option::Some(false),
        match c.build {
            Option::Some(b) => !(b.always_rebuild == Option::Some(true) && b.build_command.len()
                > 0),
            Option::None => true,
        },
    ensures
        ({
            let s1 = spec_run_item(c, s, git_changed, http_changed, local_changed).1;
            let second = spec_run_item(c, s1, false, false, false);
            &&& second.0.flags.all_clear()
            &&& !second.0.ran_build_command
            &&& !second.0.ran_raw_dump
            &&& !second.0.ran_transform
            &&& !second.0.ran_edit
            &&& second.1 == s1
        }),
{
    let first = spec_run_item(c, s, git_changed, http_changed, local_changed);
    let s1 = first.1;
    let u0 = spec_load_updates(c, s);
    let eff = spec_effective_source_change(c, git_changed, http_changed, local_changed);
    let u1 = if eff {
        Updates::spec_all_set()
    } else {
        u0
    };
    let save_build = c.build is Some && u1.needs_build_update;
    // after the run, a declared build section's record matches the config
    match c.build {
        Option::Some(b) => {
            if save_build {
                assert(s1.build_record == Option::Some(b));
            } else {
                assert(u1.needs_build_update == u0.needs_build_update);
                assert(!spec_build_dirty(c, s));
                assert(s1.build_record == s.build_record);
            }
            assert(!spec_build_dirty(c, s1));
        },
        Option::None => {
            assert(!spec_build_dirty(c, s1));
        },
    }
    let u2 = first.0.flags;
    // each downstream stage either ran (and left a matching record and a
    // present artifact) or was already clean
    if u2.needs_raw_update {
        assert(s1.output_record == Option::Some(c.output) && s1.raw_exists);
    } else {
        assert(!spec_raw_own_dirty(c, s));
    }
    assert(!spec_raw_own_dirty(c, s1));
    if u2.needs_preprocessed_update {
        assert(s1.sox_record == Option::Some(c.sox) && s1.unprocessed_exists);
    } else {
        assert(!spec_preprocessed_own_dirty(c, s));
    }
    assert(!spec_preprocessed_own_dirty(c, s1));
    if u2.needs_ffmpeg_update {
        assert(s1.clip_record == Option::Some(ClipsOptV { clip: c.clip }) && s1.processed_exists);
    } else {
        assert(!spec_edit_own_dirty(c, s));
    }
    assert(!spec_edit_own_dirty(c, s1));
    assert(spec_load_updates(c, s1).all_clear());
    // the build command does not run again: if one is declared and nonempty,
    // the first run left the completion sentinel in place
    match c.build {
        Option::Some(b) => {
            if b.build_command.len() > 0 {
                let lock_after_wipe1 = s.build_lock_exists && !save_build;
                if first.0.ran_build_command {
                    assert(s1.build_lock_exists);
                } else {
                    assert(!(b.always_rebuild == Option::Some(true) || !lock_after_wipe1));
                    assert(s1.build_lock_exists);
                }
            }
        },
        Option::None => {},
    }
    let second = spec_run_item(c, s1, false, false, false);
    assert(!spec_effective_source_change(c, false, false, false));
    assert(!second.0.ran_build_command);
    assert(second.0.flags.all_clear());
    assert(second.1 == s1);
}

} // verus!
