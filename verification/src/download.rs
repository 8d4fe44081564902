//! The module-install service's decision core. The storage collaborator
//! performs the network transfer and reports a result code; the logic that
//! reads the catalog and judges the code lives here.

use vstd::prelude::*;

use crate::engine::{SwordEngine, SwordModule};
use crate::text::{int_str, int_to_string};

verus! {

/// Fetches module catalogs and judges install attempts for one engine.
#[derive(Debug)]
pub struct DownloadService {
    pub engine: SwordEngine,
}

impl DownloadService {
    /// Wraps one engine.
    pub fn new(engine: SwordEngine) -> (r: DownloadService)
        ensures
            r.engine.inner == engine.inner,
            r.engine.modules.deep_view() == engine.modules.deep_view(),
    {
        DownloadService { engine }
    }

    /// The modules available for installation: the catalog snapshot the
    /// engine holds, refreshed by the caller from its remote source.
    pub fn get_available_modules(&self) -> (r: Vec<SwordModule>)
        ensures
            r.deep_view() == self.engine.modules.deep_view(),
    {
        self.engine.get_modules()
    }

    /// Judges one install attempt: result code 0 is success, any other code
    /// fails with a message naming it.
    pub fn download(&self, res: i32) -> (r: Result<(), String>)
        ensures
            res == 0 <==> r is Ok,
            r matches Err(m) ==> m@ == "Download failed with SWORD error code: "@ + int_str(
                res as int,
            ),
    {
        if res == 0 {
            Ok(())
        } else {
            let mut msg = String::new();
            msg.append("Download failed with SWORD error code: ");
            let code = int_to_string(res);
            msg.append(code.as_str());
            Err(msg)
        }
    }
}

} // verus!
