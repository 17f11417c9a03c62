//! Transport layering and traffic accounting of relayed streams.
use vstd::prelude::*;
use crate::model::FlowCounter;

verus! {

/// Which end of a bridge connection a stream belongs to.
#[derive(PartialEq, Eq, Structural, Clone, Copy, Debug)]
pub enum TransportSide {
    Client,
    Server,
}

/// The layer wrapped around a raw stream.
#[derive(PartialEq, Eq, Structural, Clone, Copy, Debug)]
pub enum TransportLayer {
    /// The stream is used as it is.
    Plain,
    /// TLS between client and server.
    Tls,
    /// Snappy frame compression.
    Snappy,
}

/// Limits and accounting applied to a client's relayed traffic.
#[derive(PartialEq, Eq, Structural, Clone, Copy, Debug)]
pub struct RelayPolicy {
    /// Kilobytes per second; 0 for no limit.
    pub rate_limit_kb: u64,
    /// Total megabytes allowed; 0 for no limit.
    pub flow_limit_mb: u64,
    /// Traffic is counted against the client.
    pub counts_flow: bool,
}

/// How a stream is wrapped: its layer, and whether a metering layer goes
/// on top.
#[derive(PartialEq, Eq, Structural, Clone, Copy, Debug)]
pub struct TransportPlan {
    pub side: TransportSide,
    pub layer: TransportLayer,
    pub metered: bool,
}

/// Encryption takes precedence over compression.
pub open spec fn layer_for(crypt: bool, compress: bool) -> TransportLayer {
    if crypt {
        TransportLayer::Tls
    } else if compress {
        TransportLayer::Snappy
    } else {
        TransportLayer::Plain
    }
}

fn transport_layer(crypt: bool, compress: bool) -> (r: TransportLayer)
    ensures
        r == layer_for(crypt, compress),
{
    if crypt {
        TransportLayer::Tls
    } else if compress {
        TransportLayer::Snappy
    } else {
        TransportLayer::Plain
    }
}

/// The wrapping of a client-side bridge stream; clients never meter.
pub fn wrap_client_transport(crypt: bool, compress: bool) -> (r: TransportPlan)
    ensures
        r == (TransportPlan {
            side: TransportSide::Client,
            layer: layer_for(crypt, compress),
            metered: false,
        }),
{
    TransportPlan { side: TransportSide::Client, layer: transport_layer(crypt, compress), metered: false }
}

/// The wrapping of a server-side stream: metered whenever the policy
/// limits the rate or the total, or counts the traffic.
pub fn wrap_server_transport(crypt: bool, compress: bool, policy: &RelayPolicy) -> (r: TransportPlan)
    ensures
        r == (TransportPlan {
            side: TransportSide::Server,
            layer: layer_for(crypt, compress),
            metered: policy.rate_limit_kb != 0 || policy.flow_limit_mb != 0 || policy.counts_flow,
        }),
{
    let metered = !(policy.rate_limit_kb == 0 && policy.flow_limit_mb == 0 && !policy.counts_flow);
    TransportPlan { side: TransportSide::Server, layer: transport_layer(crypt, compress), metered }
}

/// A megabyte limit in bytes, saturating at `u64::MAX`.
pub open spec fn spec_flow_limit_bytes(flow_limit_mb: u64) -> u64 {
    if flow_limit_mb * 1048576 > u64::MAX {
        u64::MAX
    } else {
        (flow_limit_mb * 1048576) as u64
    }
}

/// Converts a megabyte limit to bytes.
pub fn flow_limit_bytes(flow_limit_mb: u64) -> (r: u64)
    ensures
        r == spec_flow_limit_bytes(flow_limit_mb),
{
    match flow_limit_mb.checked_mul(1024 * 1024) {
        Some(v) => v,
        None => u64::MAX,
    }
}

/// The relayed traffic would exceed the client's flow limit.
#[derive(PartialEq, Eq, Structural, Clone, Copy, Debug)]
pub enum FlowError {
    TrafficExceeded,
}

pub open spec fn sat_add(a: u64, b: u64) -> u64 {
    if a + b > u64::MAX {
        u64::MAX
    } else {
        (a + b) as u64
    }
}

/// The counters after adding `inlet` and `export`, or `None` when the new
/// total passes a non-zero limit.
pub open spec fn spec_record_flow(c: FlowCounter, flow_limit_bytes: u64, inlet: u64, export: u64) -> Option<FlowCounter> {
    let next_inlet = sat_add(c.inlet_flow, inlet);
    let next_export = sat_add(c.export_flow, export);
    if flow_limit_bytes > 0 && sat_add(next_inlet, next_export) > flow_limit_bytes {
        None
    } else {
        Some(FlowCounter { inlet_flow: next_inlet, export_flow: next_export })
    }
}

/// Adds relayed bytes to a client's counters (saturating); refuses, and
/// leaves the counters as they were, when the total would pass a non-zero
/// limit.
pub fn record_flow_counter(counter: &mut FlowCounter, flow_limit_bytes: u64, inlet: u64, export: u64) -> (r: Result<(), FlowError>)
    ensures
        match spec_record_flow(*old(counter), flow_limit_bytes, inlet, export) {
            Some(c) => r is Ok && *final(counter) == c,
            None => r == Err::<(), FlowError>(FlowError::TrafficExceeded) && *final(counter) == *old(counter),
        },
{
    let next_inlet = counter.inlet_flow.saturating_add(inlet);
    let next_export = counter.export_flow.saturating_add(export);
    if flow_limit_bytes > 0 && next_inlet.saturating_add(next_export) > flow_limit_bytes {
        return Err(FlowError::TrafficExceeded);
    }
    counter.inlet_flow = next_inlet;
    counter.export_flow = next_export;
    Ok(())
}

/// Recording keeps a limited client within its limit: whatever is
/// recorded, the accepted counters add up to at most the limit (for limits
/// below `u64::MAX`, where the saturated total could hide an excess).
pub proof fn lemma_record_flow_within_limit(c: FlowCounter, flow_limit_bytes: u64, inlet: u64, export: u64)
    requires
        0 < flow_limit_bytes < u64::MAX,
    ensures
        match spec_record_flow(c, flow_limit_bytes, inlet, export) {
            Some(n) => n.inlet_flow + n.export_flow <= flow_limit_bytes,
            None => true,
        },
{
}

/// Counters never go down.
pub proof fn lemma_record_flow_monotone(c: FlowCounter, flow_limit_bytes: u64, inlet: u64, export: u64)
    ensures
        match spec_record_flow(c, flow_limit_bytes, inlet, export) {
            Some(n) => n.inlet_flow >= c.inlet_flow && n.export_flow >= c.export_flow,
            None => true,
        },
{
}

} // verus!
