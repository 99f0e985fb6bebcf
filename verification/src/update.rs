//! Choosing between a library read from disk and one just downloaded.

use vstd::prelude::*;

verus! {

/// The library a load ends with once a download was tried: the downloaded one when it could
/// be read; otherwise the local one when it could be read; otherwise the download's error.
pub fn prefer_downloaded<T, E>(downloaded: Result<T, E>, local: Result<T, E>) -> (r: Result<T, E>)
    ensures
        match downloaded {
            Ok(d) => r == Ok::<T, E>(d),
            Err(de) => match local {
                Ok(l) => r == Ok::<T, E>(l),
                Err(_) => r == Err::<T, E>(de),
            },
        },
{
    match downloaded {
        Ok(d) => Ok(d),
        Err(de) => match local {
            Ok(l) => Ok(l),
            Err(_) => Err(de),
        },
    }
}

} // verus!
