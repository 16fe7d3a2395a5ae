pub mod bench;
pub mod estimator;
pub mod partition;
pub mod sample;
pub mod sampler;
pub mod stats;

pub use bench::bench;
pub use estimator::Estimate;
pub use estimator::simulate_pi_par;
pub use estimator::simulate_pi_seq;
pub use partition::Partition;
pub use partition::make_partitions;
pub use sample::COORD_ONE;
pub use sample::Sample;
pub use sampler::Sampler;
pub use sampler::SamplerFactory;
pub use stats::Stats;
pub use stats::compute_stats;
