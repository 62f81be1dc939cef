/// The ingestion pipeline: decode, track, buffer and commit, one
/// datagram at a time.
pub mod collector;
/// Serializing a session's rows to their tabular on-disk form.
pub mod csvout;
/// Deriving a session's identifier from its vehicle.
pub mod ident;
/// The fixed binary telemetry record and its decoder.
pub mod sample;
/// The committed sessions, filed with exclusive-create semantics.
pub mod store;
/// The two-state race-session tracker and its laws.
pub mod tracker;
