//! How long the phases of an install take.
use crate::str_map::StrMap;
use crate::text::opt_text;
use vstd::prelude::*;

verus! {

/// The time of each phase, where it is to be reported, and the last sample of
/// what the system counts, of type `S`.
#[derive(Debug)]
pub struct InstallPhaseTimings<S> {
    /// The file that the times are reported in.
    pub path: Option<String>,
    /// The milliseconds of each phase.
    pub phases_ms: StrMap<u128>,
    pub last_sample: Option<S>,
}

/// What is reported of an install.
#[derive(Debug)]
pub struct TimingReport<'a> {
    /// The file that the report is appended to.
    pub path: &'a str,
    pub cwd: &'a str,
    pub scenario: Option<String>,
    pub total_ms: u128,
    pub packages: usize,
    pub cached: usize,
    pub fetched: usize,
    pub phases_ms: &'a StrMap<u128>,
}

impl<S: Copy> InstallPhaseTimings<S> {
    /// Nothing was timed yet. `path` is what the environment says.
    pub fn from_env(path: Option<String>, sample: Option<S>) -> (r: InstallPhaseTimings<S>)
        ensures
            r.path == path,
            r.phases_ms@ == Map::<Seq<char>, u128>::empty(),
            r.last_sample == sample,
    {
        InstallPhaseTimings { path, phases_ms: StrMap::new(), last_sample: sample }
    }

    /// Take note of the time of a phase, where times are reported. `after` is a
    /// sample, where samples are taken; with the one before it, it comes back
    /// for the difference to be passed on.
    pub fn record(&mut self, phase: &str, elapsed_ms: u128, after: Option<S>) -> (r: Option<(S, S)>)
        ensures
            final(self).path == old(self).path,
            final(self).phases_ms@ == (if old(self).path is Some {
                old(self).phases_ms@.insert(phase@, elapsed_ms)
            } else {
                old(self).phases_ms@
            }),
            match after {
                Some(a) => final(self).last_sample == Some(a) && r == (match old(self).last_sample {
                    Some(b) => Some((b, a)),
                    None => None,
                }),
                None => final(self).last_sample == old(self).last_sample && r is None,
            },
    {
        if self.path.is_some() {
            self.phases_ms.insert(phase.to_owned(), elapsed_ms);
        }
        match after {
            Some(a) => {
                let r = match self.last_sample {
                    Some(b) => Some((b, a)),
                    None => None,
                };
                self.last_sample = Some(a);
                r
            },
            None => None,
        }
    }

    /// What is reported at the end; nothing where times are not reported.
    pub fn write<'a>(
        &'a self,
        cwd: &'a str,
        scenario: Option<String>,
        total_ms: u128,
        packages: usize,
        cached: usize,
        fetched: usize,
    ) -> (r: Option<TimingReport<'a>>)
        ensures
            r is Some <==> self.path is Some,
            r is Some ==> ({
                let t = r->0;
                &&& Some(t.path@) == opt_text(self.path)
                &&& t.cwd@ == cwd@
                &&& t.scenario == scenario
                &&& t.total_ms == total_ms
                &&& t.packages == packages
                &&& t.cached == cached
                &&& t.fetched == fetched
                &&& *t.phases_ms == self.phases_ms
            }),
    {
        match &self.path {
            None => None,
            Some(path) => Some(
                TimingReport {
                    path: path.as_str(),
                    cwd,
                    scenario,
                    total_ms,
                    packages,
                    cached,
                    fetched,
                    phases_ms: &self.phases_ms,
                },
            ),
        }
    }
}

} // verus!
