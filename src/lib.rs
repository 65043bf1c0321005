//! Bookkeeping core of a Monte Carlo view-factor estimator for 2-D emitting
//! line segments.
//!
//! The geometric sampling (emission points, Lambertian angles, ray and
//! segment intersection) is floating-point work done by the caller. This
//! library holds the decisions around it: the lifecycle of a scene, which
//! shape a sampled ray is credited to, the per-target hit tallies, and the
//! estimates that a run reports.
pub mod attribution;
pub mod run;
pub mod scene;
pub mod tally;
