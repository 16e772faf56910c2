//! Domain-separation tags for the canonical byte inputs. Each signed or
//! hashed input begins with its tag, so that bytes valid in one role can
//! never verify in another.

use vstd::prelude::*;

verus! {

/// Bulletin entry hash input. (`"bmvs/v0/bulletin-entry"`)
pub const BULLETIN_ENTRY: [u8; 22] = [98, 109, 118, 115, 47, 118, 48, 47, 98, 117, 108, 108, 101, 116, 105, 110, 45, 101, 110, 116, 114, 121];

/// Board segment signing input. (`"bmvs/v0/board-segment"`)
pub const BOARD_SEGMENT: [u8; 21] = [98, 109, 118, 115, 47, 118, 48, 47, 98, 111, 97, 114, 100, 45, 115, 101, 103, 109, 101, 110, 116];

/// Chain-head attestation signing input. (`"bmvs/v0/attestation"`)
pub const ATTESTATION: [u8; 19] = [98, 109, 118, 115, 47, 118, 48, 47, 97, 116, 116, 101, 115, 116, 97, 116, 105, 111, 110];

/// Disposition record signing input. (`"bmvs/v0/disposition"`)
pub const DISPOSITION: [u8; 19] = [98, 109, 118, 115, 47, 118, 48, 47, 100, 105, 115, 112, 111, 115, 105, 116, 105, 111, 110];

/// Tabulator report signing input. (`"bmvs/v0/tabulator-report"`)
pub const TABULATOR_REPORT: [u8; 24] = [98, 109, 118, 115, 47, 118, 48, 47, 116, 97, 98, 117, 108, 97, 116, 111, 114, 45, 114, 101, 112, 111, 114, 116];

/// Election configuration signing input. (`"bmvs/v0/election-config"`)
pub const CONFIG: [u8; 23] = [98, 109, 118, 115, 47, 118, 48, 47, 101, 108, 101, 99, 116, 105, 111, 110, 45, 99, 111, 110, 102, 105, 103];

/// Tally transcript signing input. (`"bmvs/v0/tally-transcript"`)
pub const TRANSCRIPT: [u8; 24] = [98, 109, 118, 115, 47, 118, 48, 47, 116, 97, 108, 108, 121, 45, 116, 114, 97, 110, 115, 99, 114, 105, 112, 116];

} // verus!
