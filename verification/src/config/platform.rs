//! The platform's per-user directories, each kind a type of its own, so that a
//! configuration directory cannot stand where a data directory is asked for,
//! or the other way round. Only the lookups below make values of these types.

use vstd::prelude::*;

verus! {

/// The platform's per-user configuration directory, as its exact bytes.
pub struct ConfigDir {
    bytes: Vec<u8>,
}

/// The platform's per-user data directory, as its exact bytes.
pub struct DataDir {
    bytes: Vec<u8>,
}

impl ConfigDir {
    /// The directory's path.
    pub closed spec fn path(&self) -> Seq<u8> {
        self.bytes@
    }

    /// The bytes of the configuration directory's path.
    pub fn config_dir_bytes(&self) -> (r: &[u8])
        ensures
            r@ == self.path(),
    {
        self.bytes.as_slice()
    }
}

impl DataDir {
    /// The directory's path.
    pub closed spec fn path(&self) -> Seq<u8> {
        self.bytes@
    }

    /// The bytes of the data directory's path.
    pub fn data_dir_bytes(&self) -> (r: &[u8])
        ensures
            r@ == self.path(),
    {
        self.bytes.as_slice()
    }
}

/// `dirs::config_dir`: the platform's per-user configuration directory, if it
/// has one (it depends on the environment, so nothing more is stated).
#[verifier::external_body]
pub fn platform_config_dir() -> (r: Option<ConfigDir>) {
    dirs::config_dir().map(|p| ConfigDir { bytes: p.into_os_string().into_encoded_bytes() })
}

/// `dirs::data_dir`: the platform's per-user data directory, if it has one (it
/// depends on the environment, so nothing more is stated).
#[verifier::external_body]
pub fn platform_data_dir() -> (r: Option<DataDir>) {
    dirs::data_dir().map(|p| DataDir { bytes: p.into_os_string().into_encoded_bytes() })
}

} // verus!
