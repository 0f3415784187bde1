//! The download orchestrator's admission policy: one worker per discovered
//! file, launched one at a time in discovery order, with the fixed
//! inter-launch delay between successive launches, so launches are paced and
//! never instantaneous. A worker's failure never cancels the others; the
//! spawning and the sleeping themselves happen outside.

use vstd::prelude::*;
use crate::enumerate::FoundFile;

verus! {

/// What the loop must do next: spawn a worker for this file and wait
/// `delay_ms` before the next launch, or stop — every file has a worker.
#[derive(Debug, PartialEq, Eq)]
pub enum LaunchCommand {
    Spawn { file: FoundFile, delay_ms: u64 },
    Finished,
}

/// Launches workers for a list of discovered files, one per file, in order.
#[derive(Debug)]
pub struct Launcher {
    queue: Vec<FoundFile>,
}

impl Launcher {
    /// The files still to launch, in launch order.
    pub closed spec fn pending(self) -> Seq<crate::enumerate::FileV> {
        self.queue@.map_values(|f: FoundFile| f@)
    }

    pub fn new(files: Vec<FoundFile>) -> (l: Launcher)
        ensures
            l.pending() == files@.map_values(|f: FoundFile| f@),
    {
        Launcher { queue: files }
    }

    /// Hands out the next launch: exactly the first pending file, spawned
    /// with the fixed inter-launch delay; `Finished` once every file has
    /// been handed out.
    pub fn next_launch(&mut self) -> (r: LaunchCommand)
        ensures
            old(self).pending().len() == 0 ==> r is Finished && final(self).pending()
                == old(self).pending(),
            old(self).pending().len() > 0 ==> (r matches LaunchCommand::Spawn { file, delay_ms }
                && file@ == old(self).pending()[0] && delay_ms == crate::LAUNCH_DELAY_MS)
                && final(self).pending() == old(self).pending().skip(1),
    {
        if self.queue.len() == 0 {
            return LaunchCommand::Finished;
        }
        let file = self.queue.remove(0);
        proof {
            assert(self.queue@.map_values(|f: FoundFile| f@) =~= old(self).queue@.map_values(
                |f: FoundFile| f@,
            ).skip(1));
        }
        LaunchCommand::Spawn { file, delay_ms: crate::LAUNCH_DELAY_MS }
    }
}

} // verus!
