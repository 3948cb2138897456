//! The checks on an IL2CPP binary that come before a native dump.
use vstd::prelude::*;
use crate::error::Error;

verus! {

/// Whether `binary` starts with the ELF magic `\x7fELF`.
pub open spec fn is_elf(binary: Seq<u8>) -> bool {
    binary.len() >= 4 && binary[0] == 0x7f && binary[1] == 0x45 && binary[2] == 0x4c && binary[3]
        == 0x46
}

/// Checks that `binary` is an ELF file and tells whether it is a 32-bit one
/// (its class byte is 1).
pub fn elf_class(binary: &[u8]) -> (r: Result<bool, Error>)
    ensures
        is_elf(binary@) ==> r == Ok::<bool, Error>(binary@.len() > 4 && binary@[4] == 1),
        !is_elf(binary@) ==> r == Err::<bool, Error>(Error::NotElf),
{
    if binary.len() < 4 || binary[0] != 0x7f || binary[1] != 0x45 || binary[2] != 0x4c || binary[3]
        != 0x46 {
        return Err(Error::NotElf);
    }
    Ok(binary.len() > 4 && binary[4] == 1)
}

} // verus!
