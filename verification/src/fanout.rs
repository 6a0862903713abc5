use vstd::prelude::*;

verus! {

/// The number of consumer threads to start when `requested` consumers are
/// asked for on a machine with `cores` cores: as many as asked, but no more
/// than one fewer than the cores, so that the producer keeps a core.
pub open spec fn spec_consumer_threads(requested: int, cores: int) -> int {
    let spare = if cores >= 1 {
        cores - 1
    } else {
        0
    };
    if requested <= spare {
        requested
    } else {
        spare
    }
}

/// The fan-out keeps one core for the producer: it starts every consumer
/// asked for when they fit in the other cores, and otherwise one consumer
/// per other core (none on a machine reported with no core or one).
pub proof fn lemma_consumer_threads(requested: int, cores: int)
    requires
        requested >= 0,
    ensures
        spec_consumer_threads(requested, cores) == vstd::math::min(
            requested,
            vstd::math::max(cores - 1, 0),
        ),
        0 <= spec_consumer_threads(requested, cores) <= requested,
        spec_consumer_threads(requested, cores) <= vstd::math::max(cores - 1, 0),
        requested <= cores - 1 ==> spec_consumer_threads(requested, cores) == requested,
        requested >= cores - 1 && cores >= 1 ==> spec_consumer_threads(requested, cores) == cores
            - 1,
{
}

/// The number of consumer threads for `requested` consumers on a machine
/// with `available_cores` cores.
pub fn consumer_threads_for(requested: usize, available_cores: usize) -> (threads: usize)
    ensures
        threads == spec_consumer_threads(requested as int, available_cores as int),
        threads == vstd::math::min(
            requested as int,
            available_cores.saturating_sub(1) as int,
        ),
        threads <= requested,
        available_cores >= 1 ==> threads <= available_cores - 1,
        available_cores >= 1 && requested <= available_cores - 1 ==> threads == requested,
        available_cores >= 1 && requested > available_cores - 1 ==> threads == available_cores
            - 1,
{
    let spare = available_cores.saturating_sub(1);
    if requested <= spare {
        requested
    } else {
        spare
    }
}

/// The number of logical cores available to this process, as
/// `num_cpus::get` counts them (affinity mask and cgroup quota included);
/// its documentation promises at least 1. What else it returns depends on
/// the machine, and is left unsaid.
#[verifier::external_body]
fn available_cores() -> (cores: usize)
    ensures
        cores >= 1,
{
    num_cpus::get()
}

/// The number of consumer threads for `requested` consumers on this
/// machine: the fan-out for the number of cores that `num_cpus` reports.
pub fn consumer_threads(requested: usize) -> (threads: usize)
    ensures
        exists|cores: int| cores >= 1 && threads == spec_consumer_threads(requested as int, cores),
        threads <= requested,
{
    let cores = available_cores();
    consumer_threads_for(requested, cores)
}

/// The number of peers in a channel mesh that joins one producer with
/// `consumers` consumers.
pub fn mesh_peers(consumers: usize) -> (peers: usize)
    requires
        consumers < usize::MAX,
    ensures
        peers == consumers + 1,
{
    1 + consumers
}

} // verus!
