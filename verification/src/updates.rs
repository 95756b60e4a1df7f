//! The cascading update tracker: one flag per rebuildable stage, ordered
//! acquisition → raw → transform → edit.
//!
//! The cascade invariant `wf` says the flags are monotone along the pipeline:
//! once a stage must rebuild, everything downstream of it must rebuild too.
//! The tracker is established with the cascade applied and offers only
//! strengthening operations, so the invariant holds in every reachable state.

use vstd::prelude::*;

verus! {

/// Rebuild flags for the four stages of one item's pipeline.
#[derive(Clone, Copy, Debug, PartialEq, Eq, Structural)]
pub struct Updates {
    pub needs_raw_update: bool,
    pub needs_preprocessed_update: bool,
    pub needs_build_update: bool,
    pub needs_ffmpeg_update: bool,
}

impl Updates {
    /// The cascade invariant: a stale stage makes every later stage stale.
    pub open spec fn wf(self) -> bool {
        &&& self.needs_build_update ==> self.needs_raw_update
        &&& self.needs_raw_update ==> self.needs_preprocessed_update
        &&& self.needs_preprocessed_update ==> self.needs_ffmpeg_update
    }

    /// No stage needs to run.
    pub open spec fn all_clear(self) -> bool {
        !self.needs_build_update && !self.needs_raw_update && !self.needs_preprocessed_update
            && !self.needs_ffmpeg_update
    }

    /// Flags with every stage forced to rebuild.
    pub open spec fn spec_all_set() -> Updates {
        Updates {
            needs_raw_update: true,
            needs_preprocessed_update: true,
            needs_build_update: true,
            needs_ffmpeg_update: true,
        }
    }

    /// Builds the tracker from each stage's own staleness, applying the
    /// forward cascade.
    pub fn from_stage_state(
        build_dirty: bool,
        raw_dirty: bool,
        preprocessed_dirty: bool,
        edit_dirty: bool,
    ) -> (r: Updates)
        ensures
            r.needs_build_update == build_dirty,
            r.needs_raw_update == (build_dirty || raw_dirty),
            r.needs_preprocessed_update == (build_dirty || raw_dirty || preprocessed_dirty),
            r.needs_ffmpeg_update == (build_dirty || raw_dirty || preprocessed_dirty
                || edit_dirty),
            r.wf(),
    {
        let needs_build_update = build_dirty;
        let needs_raw_update = needs_build_update || raw_dirty;
        let needs_preprocessed_update = needs_raw_update || preprocessed_dirty;
        let needs_ffmpeg_update = needs_preprocessed_update || edit_dirty;
        Updates { needs_raw_update, needs_preprocessed_update, needs_build_update, needs_ffmpeg_update }
    }

    /// The acquisition stage found changed sources at run time: the
    /// acquisition flag and everything downstream become stale.
    pub fn build_updated(&mut self)
        ensures
            *final(self) == Updates::spec_all_set(),
            final(self).wf(),
    {
        self.needs_build_update = true;
        self.needs_raw_update = true;
        self.needs_preprocessed_update = true;
        self.needs_ffmpeg_update = true;
    }

    /// The build command re-ran: the built artifact changed, so every stage
    /// that consumes it becomes stale.
    pub fn rebuilt(&mut self)
        ensures
            final(self).needs_build_update == old(self).needs_build_update,
            final(self).needs_raw_update,
            final(self).needs_preprocessed_update,
            final(self).needs_ffmpeg_update,
            final(self).wf(),
    {
        self.needs_raw_update = true;
        self.needs_preprocessed_update = true;
        self.needs_ffmpeg_update = true;
    }
}

/// The cascade invariant, spelled out: in every well-formed tracker state the
/// flags form a chain, needing an acquisition update forces a raw update,
/// which forces a transform update, which forces an edit update.
pub proof fn lemma_cascade_invariant(u: Updates)
    requires
        u.wf(),
    ensures
        u.needs_build_update ==> u.needs_raw_update,
        u.needs_raw_update ==> u.needs_preprocessed_update,
        u.needs_preprocessed_update ==> u.needs_ffmpeg_update,
{
}

} // verus!
