//! Diagnostic and degradation codes that travel with the run, so that a consumer
//! can tell a complete capture from a degraded one rather than reading a gap as
//! clean.

use vstd::prelude::*;

verus! {

/// eBPF unavailable; no record produced, gap reconciled as unknown.
pub const OBS_001: &'static str = "OBS_001";

/// `type` not attributable from adapter or whitelist; heuristic used.
pub const OBS_003: &'static str = "OBS_003";

/// A file in scope could not be read for hashing.
pub const HASH_R_001: &'static str = "HASH_R_001";

/// Pipeline unreachable or timed out after retries; buffered, reconciled unknown.
pub const SUB_001: &'static str = "SUB_001";

/// `401` from the pipeline (bad or expired token).
pub const SUB_002: &'static str = "SUB_002";

/// `400`/`422` invalid record; not retried, logged as a recorder defect.
pub const SUB_003: &'static str = "SUB_003";

/// Reconciliation shortfall: observed operations exceed submitted receipts.
pub const SUB_004: &'static str = "SUB_004";

/// The single supported capture fidelity.
pub const OBSERVATION_MODE: &'static str = "file_access_tracking";

} // verus!
