use vstd::prelude::*;

verus! {

use crate::file_def::FileDef;
use crate::platform::Platform;

/// Where a mod is downloaded from: one universal file, or one file per
/// platform.
#[derive(Debug, Clone)]
pub enum Links {
    Universal(FileDef),
    PlatformSpecific { windows: Box<FileDef>, mac: Box<FileDef>, linux: Box<FileDef> },
}

impl Links {
    /// Every file descriptor in the link set is well formed.
    pub open spec fn wf(&self) -> bool {
        match self {
            Links::Universal(file) => file.wf(),
            Links::PlatformSpecific { windows, mac, linux } => windows.wf() && mac.wf()
                && linux.wf(),
        }
    }

    /// The file serving the given platform: the universal file, or the
    /// platform's own.
    pub open spec fn spec_file(&self, platform: Platform) -> FileDef {
        match self {
            Links::Universal(file) => *file,
            Links::PlatformSpecific { windows, mac, linux } => match platform {
                Platform::Windows => **windows,
                Platform::Mac => **mac,
                Platform::Linux => **linux,
            },
        }
    }

    /// Build a universal link set.
    pub fn new_universal(file_def: FileDef) -> (r: Self)
        ensures
            r == Links::Universal(file_def),
    {
        Links::Universal(file_def)
    }

    /// Build a platform-specific link set.
    pub fn new_platform_specific(windows: FileDef, mac: FileDef, linux: FileDef) -> (r: Self)
        ensures
            r matches Links::PlatformSpecific { windows: w, mac: m, linux: l } && *w == windows
                && *m == mac && *l == linux,
    {
        Links::PlatformSpecific {
            windows: Box::new(windows),
            mac: Box::new(mac),
            linux: Box::new(linux),
        }
    }

    /// The file serving the given platform.
    pub fn file(&self, platform: Platform) -> (r: &FileDef)
        ensures
            *r == self.spec_file(platform),
    {
        match self {
            Links::Universal(file) => file,
            Links::PlatformSpecific { windows, mac, linux } => match platform {
                Platform::Windows => windows,
                Platform::Mac => mac,
                Platform::Linux => linux,
            },
        }
    }

    /// The file serving the given platform, consuming the link set.
    pub fn into_file(self, platform: Platform) -> (r: FileDef)
        ensures
            r == self.spec_file(platform),
    {
        match self {
            Links::Universal(file) => file,
            Links::PlatformSpecific { windows, mac, linux } => match platform {
                Platform::Windows => *windows,
                Platform::Mac => *mac,
                Platform::Linux => *linux,
            },
        }
    }
}

} // verus!
