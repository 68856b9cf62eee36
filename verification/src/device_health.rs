//! Device-health observation and its effect on put admission.

use vstd::prelude::*;

verus! {

/// Whether an observed critical NVMe health sample affects put admission.
///
/// Health is advisory by default. Reads, removes, flushes, and close are never
/// rejected by this policy.
#[non_exhaustive]
#[derive(Clone, Copy, Debug, PartialEq, Eq, Structural)]
pub enum DeviceHealthPolicy {
    ObserveOnly,
    RejectPutsOnCritical,
}

impl Default for DeviceHealthPolicy {
    fn default() -> (policy: DeviceHealthPolicy)
        ensures
            policy == DeviceHealthPolicy::ObserveOnly,
    {
        DeviceHealthPolicy::ObserveOnly
    }
}

/// One externally collected NVMe SMART/health sample.
///
/// The cache library does not guess which controller backs an ordinary file;
/// an operator or management tool supplies samples for the intended device.
#[derive(Clone, Copy, Debug, PartialEq, Eq, Structural)]
pub struct NvmeHealthSample {
    pub observed_at_unix_ms: u64,
    pub data_units_written: u64,
    pub critical_warning: u8,
    pub available_spare_percent: u8,
    pub available_spare_threshold_percent: u8,
    pub percentage_used: u8,
    pub media_errors: u64,
}

impl Default for NvmeHealthSample {
    fn default() -> (sample: NvmeHealthSample)
        ensures
            sample.observed_at_unix_ms == 0,
            sample.data_units_written == 0,
            sample.critical_warning == 0,
            sample.available_spare_percent == 0,
            sample.available_spare_threshold_percent == 0,
            sample.percentage_used == 0,
            sample.media_errors == 0,
    {
        NvmeHealthSample {
            observed_at_unix_ms: 0,
            data_units_written: 0,
            critical_warning: 0,
            available_spare_percent: 0,
            available_spare_threshold_percent: 0,
            percentage_used: 0,
            media_errors: 0,
        }
    }
}

/// What a sample means in the light of those before it.
#[derive(Clone, Copy, Debug, PartialEq, Eq, Structural)]
pub struct NvmeHealthStats {
    pub sample: NvmeHealthSample,
    pub observations: u64,
    /// True when the latest counter is greater than the preceding sample.
    pub media_errors_increased: bool,
    /// Latched for this cache instance once any media-error growth is observed.
    pub media_error_growth_observed: bool,
    pub critical: bool,
}

/// The health samples seen so far, as far as they matter.
#[derive(Clone, Copy, Debug, PartialEq, Eq, Structural)]
pub struct DeviceHealthTracker {
    pub policy: DeviceHealthPolicy,
    pub latest: Option<NvmeHealthStats>,
    pub media_error_growth_observed: bool,
    pub observations: u64,
}

impl DeviceHealthTracker {
    /// What the next sample means.
    pub open spec fn judged(self, sample: NvmeHealthSample) -> NvmeHealthStats {
        let increased = match self.latest {
            Some(previous) => sample.media_errors > previous.sample.media_errors,
            None => false,
        };
        let growth = self.media_error_growth_observed || increased;
        NvmeHealthStats {
            sample,
            observations: if self.observations < u64::MAX {
                (self.observations + 1) as u64
            } else {
                u64::MAX
            },
            media_errors_increased: increased,
            media_error_growth_observed: growth,
            critical: sample.critical_warning != 0 || sample.available_spare_percent < sample.available_spare_threshold_percent
                || growth,
        }
    }

    /// The tracker once the sample has been seen.
    pub open spec fn after(self, sample: NvmeHealthSample) -> DeviceHealthTracker {
        let stats = self.judged(sample);
        DeviceHealthTracker {
            policy: self.policy,
            latest: Some(stats),
            media_error_growth_observed: stats.media_error_growth_observed,
            observations: stats.observations,
        }
    }

    /// Puts are turned away.
    pub open spec fn rejects_puts(self) -> bool {
        self.policy == DeviceHealthPolicy::RejectPutsOnCritical && match self.latest {
            Some(stats) => stats.critical,
            None => false,
        }
    }

    /// A tracker that has seen no sample.
    pub fn new(policy: DeviceHealthPolicy) -> (tracker: DeviceHealthTracker)
        ensures
            tracker == (DeviceHealthTracker {
                policy,
                latest: None,
                media_error_growth_observed: false,
                observations: 0,
            }),
    {
        DeviceHealthTracker { policy, latest: None, media_error_growth_observed: false, observations: 0 }
    }

    /// Takes in a sample.
    pub fn observe(&mut self, sample: NvmeHealthSample) -> (stats: NvmeHealthStats)
        ensures
            stats == old(self).judged(sample),
            *final(self) == old(self).after(sample),
    {
        let media_errors_increased = match self.latest {
            Some(previous) => sample.media_errors > previous.sample.media_errors,
            None => false,
        };
        self.media_error_growth_observed = self.media_error_growth_observed || media_errors_increased;
        self.observations = self.observations.saturating_add(1);
        let critical = sample.critical_warning != 0 || sample.available_spare_percent < sample.available_spare_threshold_percent
            || self.media_error_growth_observed;
        let stats = NvmeHealthStats {
            sample,
            observations: self.observations,
            media_errors_increased,
            media_error_growth_observed: self.media_error_growth_observed,
            critical,
        };
        self.latest = Some(stats);
        stats
    }

    /// The latest sample and what it means.
    pub fn latest(&self) -> (stats: Option<NvmeHealthStats>)
        ensures
            stats == self.latest,
    {
        self.latest
    }

    /// Whether puts are turned away.
    pub fn should_reject_put(&self) -> (reject: bool)
        ensures
            reject == self.rejects_puts(),
    {
        self.policy == DeviceHealthPolicy::RejectPutsOnCritical && match self.latest {
            Some(stats) => stats.critical,
            None => false,
        }
    }
}

/// Health is advisory by default: an observing tracker never turns a put away.
pub proof fn law_observing_never_rejects(tracker: DeviceHealthTracker, sample: NvmeHealthSample)
    requires
        tracker.policy == DeviceHealthPolicy::ObserveOnly,
    ensures
        !tracker.rejects_puts(),
        !tracker.after(sample).rejects_puts(),
{
}

/// The tracker once all the samples have been seen.
pub open spec fn after_all(tracker: DeviceHealthTracker, samples: Seq<NvmeHealthSample>) -> DeviceHealthTracker
    decreases samples.len(),
{
    if samples.len() == 0 {
        tracker
    } else {
        after_all(tracker, samples.drop_last()).after(samples.last())
    }
}

/// Media-error growth latches: whatever samples follow, the device stays
/// critical.
pub proof fn law_media_error_growth_latches(tracker: DeviceHealthTracker, samples: Seq<NvmeHealthSample>)
    requires
        tracker.media_error_growth_observed,
    ensures
        after_all(tracker, samples).media_error_growth_observed,
        samples.len() > 0 ==> after_all(tracker, samples).latest->0.critical,
        samples.len() > 0 ==> after_all(tracker, samples).latest is Some,
    decreases samples.len(),
{
    if samples.len() > 0 {
        law_media_error_growth_latches(tracker, samples.drop_last());
    }
}

/// A sample is critical exactly if the device warns, its spare has fallen below
/// the threshold, or its media errors have grown since the one before, now or
/// ever. Puts are turned away exactly where the policy says so and the latest
/// sample is critical.
pub proof fn law_critical_samples(tracker: DeviceHealthTracker, sample: NvmeHealthSample)
    ensures
        ({
            let after = tracker.after(sample);
            let grown = tracker.latest matches Some(previous) && previous.sample.media_errors < sample.media_errors;
            &&& after.policy == tracker.policy
            &&& after.latest matches Some(stats) && {
                &&& stats.sample == sample
                &&& stats.media_errors_increased <==> grown
                &&& stats.media_error_growth_observed <==> tracker.media_error_growth_observed || grown
                &&& stats.critical <==> sample.critical_warning > 0 || sample.available_spare_percent
                    < sample.available_spare_threshold_percent || tracker.media_error_growth_observed || grown
                &&& stats.observations == after.observations
                &&& after.rejects_puts() <==> tracker.policy is RejectPutsOnCritical && stats.critical
            }
            &&& after.media_error_growth_observed <==> tracker.media_error_growth_observed || grown
            &&& tracker.observations < u64::MAX ==> after.observations == tracker.observations + 1
            &&& tracker.observations == u64::MAX ==> after.observations == u64::MAX
            &&& tracker.latest is None ==> !tracker.rejects_puts()
        }),
{
}

} // verus!
