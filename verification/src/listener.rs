//! What a listener owes the file system when it goes away.

use vstd::prelude::*;

verus! {

/// The file that a local-domain listener removes when it is destroyed.
/// `local_name` is what the system reports of the listener's own address:
/// its path, no path for a socket without a name, or an error. The path is
/// removed where there is one; without a path, and on an error, nothing is
/// removed.
pub fn path_to_remove<P, E>(local_name: Result<Option<P>, E>) -> (r: Option<P>)
    ensures
        r == (match local_name {
            Ok(Some(path)) => Some(path),
            _ => None,
        }),
{
    match local_name {
        Ok(Some(path)) => Some(path),
        _ => None,
    }
}

} // verus!
