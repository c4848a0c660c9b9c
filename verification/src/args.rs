//! What the emulator is told on its command line.

use std::path::PathBuf;
use vstd::prelude::*;

verus! {

/// `std::path::PathBuf`, an owned file-system path. Nothing inside it is
/// visible to the proofs.
#[verifier::external_type_specification]
#[verifier::external_body]
pub struct ExPathBuf(std::path::PathBuf);

/// The arguments of one emulation session.
#[derive(Debug)]
pub struct Args {
    /// Path of the program image to run.
    pub rom_file: PathBuf,
}

} // verus!
