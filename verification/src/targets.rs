use vstd::prelude::*;

verus! {

use vstd::string::*;

/// The target architectures that the iOS binding build installs, in the order
/// they are installed. Actually invoking the toolchain installer on each of
/// them is process I/O and stays with the caller.
pub fn install_archs() -> (archs: Vec<String>)
    ensures
        archs@.len() == 3,
        archs@[0]@ == "x86_64-apple-ios"@,
        archs@[1]@ == "aarch64-apple-ios"@,
        archs@[2]@ == "aarch64-apple-ios-sim"@,
{
    let mut archs: Vec<String> = Vec::new();
    archs.push(String::from_str("x86_64-apple-ios"));
    archs.push(String::from_str("aarch64-apple-ios"));
    archs.push(String::from_str("aarch64-apple-ios-sim"));
    archs
}

} // verus!
